use decklist_price::entry::{Entry, ParseError};
use decklist_price::pipeline::{Pipeline, PipelineError, Step};
use decklist_price::report::{compute_decklist_price, PricingReport};
use decklist_price::resolve::{
    cheapest_printing_query, lookup_of_error, resolve, CardQuery, FailureKind, Lookup, Printing,
    ResolvedCard,
};

/// A price source that knows three cards.
fn source(query: &CardQuery) -> Lookup {
    let price = match query.exact_name.to_lowercase().as_str() {
        "mountain" => "0.10",
        "island" => "0.25",
        "plains" => "0.05",
        "unreachable" => return Lookup::Failed("connection refused".to_string()),
        _ => return Lookup::Empty,
    };
    Lookup::Found(Printing { id: format!("{}-1", query.exact_name), usd: Some(price.to_string()) })
}

fn find_cheapest_printing(card_name: &str) -> Result<ResolvedCard, String> {
    let entry = Entry::new(1, card_name).unwrap();
    resolve(entry, source(&cheapest_printing_query(card_name))).map_err(|failure| failure.reason())
}

/// Runs a started run to its end against `source`, and counts the lookups.
fn finish(mut run: Pipeline, asked: &mut Vec<String>) -> PricingReport {
    loop {
        match run.next_step() {
            Step::Lookup { query, min_interval_ms } => {
                assert!(min_interval_ms > 0);
                asked.push(query.exact_name.clone());
                run = run.record(source(&query));
            },
            Step::Finished => {
                assert!(run.is_finished());
                return run.finish();
            },
        }
    }
}

fn build_decklist(raw_card_list: &str, rate_milliseconds: u64) -> Result<PricingReport, PipelineError> {
    let run = Pipeline::start(raw_card_list, rate_milliseconds)?;
    Ok(finish(run, &mut Vec::new()))
}

#[test]
fn test_find_cheapest_printing() {
    let printing = find_cheapest_printing("mountain");
    assert!(printing.is_ok());
    match printing {
        Ok(card) => assert!(card.unit_price_cents() > 0),
        Err(_) => panic!("Expected a price for the card"),
    }
}

#[test]
fn test_find_cheapest_printing_nonexistent() {
    let printing = find_cheapest_printing("NonExistentCard");
    assert!(printing.is_err());
}

#[test]
fn test_find_cheapest_printing_of_list() {
    let cards = "3 Mountain\n2 Island\n1 Plains";
    let result = build_decklist(cards, 200);
    assert!(result.is_ok());
    let report = result.unwrap();
    let cheapest_cards = report.resolved();
    assert_eq!(cheapest_cards.len(), 3);
    for card in cheapest_cards {
        assert!(card.unit_price_cents() > 0, "Card {} should have a positive price", card.entry().card_name());
        assert!(
            vec!["Mountain", "Island", "Plains"].contains(&card.entry().card_name()),
            "Card name should be one of the expected names"
        );
        assert!(card.entry().quantity() > 0, "Count should be greater than 0 for card {}", card.entry().card_name());
    }
}

#[test]
fn test_build_decklist() {
    let raw_card_list = "3 Mountain\n2 Island\n1 Plains".to_string();
    let result = build_decklist(&raw_card_list, 200);
    assert!(result.is_ok());
    let decklist = result.unwrap();
    assert_eq!(decklist.resolved().len(), 3);
    for card in decklist.resolved() {
        assert!(card.unit_price_cents() > 0, "Card {} should have a price", card.entry().card_name());
        assert!(card.entry().quantity() > 0, "Count should be greater than 0 for card {}", card.entry().card_name());
    }
}

#[test]
fn test_compute_decklist_price() {
    let raw_card_list = "3 Mountain\n2 Island\n1 Plains".to_string();
    let result = build_decklist(&raw_card_list, 200);
    assert!(result.is_ok());
    let decklist = result.unwrap();
    let total_price = compute_decklist_price(decklist.resolved());
    assert!(total_price > 0, "Total price should be greater than 0.0");
    assert_eq!(total_price, decklist.total_cents());
}

#[test]
fn the_query_asks_for_the_cheapest_priced_printing_on_paper() {
    let query = cheapest_printing_query("Black Lotus");
    assert_eq!(query.exact_name, "Black Lotus");
    assert!(!query.include_digital);
    assert!(query.priced_only);
    assert!(query.cheapest_first);
    assert!(!query.include_extras);
    assert!(!query.include_variations);
    assert!(query.one_per_printing);
}

#[test]
fn a_printing_with_a_price_resolves_the_entry() {
    let entry = Entry::new(3, "Mountain").unwrap();
    let found = Lookup::Found(Printing { id: "abc".to_string(), usd: Some("0.10".to_string()) });
    let card = resolve(entry, found).unwrap();
    assert_eq!(card.entry().quantity(), 3);
    assert_eq!(card.entry().card_name(), "Mountain");
    assert_eq!(card.unit_price_cents(), 10);
    assert_eq!(card.printing_id(), "abc");
    assert_eq!(card.line_total_cents(), 30);
}

#[test]
fn a_printing_without_a_usable_price_leaves_the_entry_without_one() {
    for usd in [None, Some("0.00"), Some("0"), Some(""), Some("free"), Some("1.234"), Some("42949672.96")] {
        let entry = Entry::new(1, "Mountain").unwrap();
        let found = Lookup::Found(Printing { id: "abc".to_string(), usd: usd.map(|s| s.to_string()) });
        let failure = resolve(entry, found).unwrap_err();
        assert!(matches!(failure.kind, FailureKind::NoPriceFound), "for {:?}", usd);
        assert_eq!(failure.entry.card_name(), "Mountain");
        assert_eq!(failure.reason(), "no price found for Mountain");
    }
}

#[test]
fn no_printing_leaves_the_entry_without_a_price() {
    let failure = resolve(Entry::new(1, "NonExistentCard").unwrap(), Lookup::Empty).unwrap_err();
    assert!(matches!(failure.kind, FailureKind::NoPriceFound));
    assert_eq!(failure.entry.quantity(), 1);
    assert_eq!(failure.reason(), "no price found for NonExistentCard");
}

#[test]
fn a_failed_lookup_fails_the_entry_with_the_sources_words() {
    let lookup = Lookup::Failed("HTTP error: 503".to_string());
    let failure = resolve(Entry::new(2, "Island").unwrap(), lookup).unwrap_err();
    match &failure.kind {
        FailureKind::ExternalSourceError(message) => assert_eq!(message, "HTTP error: 503"),
        other => panic!("gave {:?}", other),
    }
    assert_eq!(failure.reason(), "HTTP error: 503");
    assert_eq!(failure.entry.card_name(), "Island");
}

#[test]
fn a_run_prices_every_card_of_a_decklist() {
    let mut asked = Vec::new();
    let run = Pipeline::start("3 Mountain\n2 Island\n1 Plains", 100).unwrap();
    let report = finish(run, &mut asked);
    assert_eq!(asked, vec!["Island", "Mountain", "Plains"]);
    assert_eq!(report.total_cents(), 3 * 10 + 2 * 25 + 1 * 5);
    assert!(report.failures().is_empty());
    assert!(!report.total_is_lower_bound());
    let resolved: Vec<(u32, &str, u32)> = report
        .resolved()
        .iter()
        .map(|card| (card.entry().quantity(), card.entry().card_name(), card.unit_price_cents()))
        .collect();
    assert_eq!(resolved, vec![(2, "Island", 25), (3, "Mountain", 10), (1, "Plains", 5)]);
}

#[test]
fn a_card_without_a_price_does_not_stop_the_run() {
    let mut asked = Vec::new();
    let text = "3 Mountain\n1 NonExistentCard\n2 Island\n1 Unreachable";
    let report = finish(Pipeline::start(text, 100).unwrap(), &mut asked);
    assert_eq!(asked, vec!["Island", "Mountain", "NonExistentCard", "Unreachable"]);
    assert_eq!(report.total_cents(), 3 * 10 + 2 * 25);
    assert!(report.total_is_lower_bound());
    assert_eq!(report.resolved().len(), 2);
    let failures: Vec<(u32, &str, String)> = report
        .failures()
        .iter()
        .map(|failure| (failure.entry.quantity(), failure.entry.card_name(), failure.reason()))
        .collect();
    assert_eq!(
        failures,
        vec![
            (1, "NonExistentCard", "no price found for NonExistentCard".to_string()),
            (1, "Unreachable", "connection refused".to_string()),
        ]
    );
}

#[test]
fn a_decklist_of_one_unknown_card_gives_a_report_without_a_total() {
    let report = finish(Pipeline::start("1 NonExistentCard", 100).unwrap(), &mut Vec::new());
    assert_eq!(report.total_cents(), 0);
    assert!(report.resolved().is_empty());
    assert_eq!(report.failures().len(), 1);
    assert_eq!(report.failures()[0].entry.card_name(), "NonExistentCard");
}

#[test]
fn a_malformed_line_ends_the_run_before_any_lookup() {
    match Pipeline::start("Mountain 3", 100) {
        Err(PipelineError::Validation(ParseError::InvalidFormat(line))) => assert_eq!(line, "Mountain 3"),
        other => panic!("gave {:?}", other),
    }
    let error = Pipeline::start("3 Mountain\n  Island  \n1 Plains", 100).unwrap_err();
    assert_eq!(error.message(), "Invalid card entry format: Island");
    let error = Pipeline::start("3 Mountain\n99999999999 Island\nPlains", 100).unwrap_err();
    assert_eq!(error.message(), "Invalid count in entry: 99999999999 Island");
}

#[test]
fn the_first_malformed_line_of_the_text_is_the_one_reported() {
    let error = Pipeline::start("3 Mountain\nzzz\naaa\n", 100).unwrap_err();
    assert_eq!(error.message(), "Invalid card entry format: zzz");
}

#[test]
fn an_empty_decklist_is_finished_at_once() {
    let run = Pipeline::start("\n  \n", 100).unwrap();
    assert!(run.is_finished());
    assert!(matches!(run.next_step(), Step::Finished));
    let report = run.finish();
    assert_eq!(report.total_cents(), 0);
    assert!(report.resolved().is_empty());
    assert!(report.failures().is_empty());
}

#[test]
fn a_run_asks_for_one_card_at_a_time_in_order() {
    let run = Pipeline::start("2 island\n1 Plains\n\n3 Mountain\n1 Island", 250).unwrap();
    assert!(!run.is_finished());
    match run.next_step() {
        Step::Lookup { query, min_interval_ms } => {
            assert_eq!(query.exact_name, "Island");
            assert_eq!(min_interval_ms, 250);
        },
        Step::Finished => panic!("nothing was looked up"),
    }
    let mut asked = Vec::new();
    let report = finish(run, &mut asked);
    assert_eq!(asked, vec!["Island", "island", "Mountain", "Plains"]);
    assert_eq!(report.total_cents(), 25 + 2 * 25 + 3 * 10 + 5);
}

#[test]
fn every_entry_is_looked_up_even_when_a_card_repeats() {
    let mut asked = Vec::new();
    let report = finish(Pipeline::start("1 Mountain\n2 Mountain\n1 Mountain", 100).unwrap(), &mut asked);
    assert_eq!(asked, vec!["Mountain", "Mountain", "Mountain"]);
    assert_eq!(report.resolved().len(), 3);
    assert_eq!(report.total_cents(), 40);
}

#[test]
fn an_error_with_status_404_is_a_lookup_without_a_printing() {
    assert!(matches!(lookup_of_error(Some(404), "not found".to_string()), Lookup::Empty));
    let entry = Entry::new(1, "NonExistentCard").unwrap();
    let failure = resolve(entry, lookup_of_error(Some(404), "not found".to_string())).unwrap_err();
    assert_eq!(failure.reason(), "no price found for NonExistentCard");
}

#[test]
fn any_other_error_is_a_failed_lookup_with_the_sources_words() {
    for status in [None, Some(0), Some(200), Some(400), Some(403), Some(405), Some(429), Some(500), Some(503)] {
        match lookup_of_error(status, "the source said no".to_string()) {
            Lookup::Failed(message) => assert_eq!(message, "the source said no"),
            other => panic!("{:?} gave {:?}", status, other),
        }
    }
}
