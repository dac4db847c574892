use decklist_price::entry::Entry;
use decklist_price::normalize::{keyed_entry, keyed_line, normalize};
use decklist_price::order::{into_items, key_precedes, ordinal_standing, sort_keyed, Keyed, Standing};

fn entries(list: &[(u32, &str)]) -> Vec<Entry> {
    list.iter().map(|(quantity, name)| Entry::new(*quantity, name).unwrap()).collect()
}

fn pairs(list: &[Entry]) -> Vec<(u32, String)> {
    list.iter().map(|e| (e.quantity(), e.card_name().to_string())).collect()
}

fn owned(list: &[(u32, &str)]) -> Vec<(u32, String)> {
    list.iter().map(|(quantity, name)| (*quantity, name.to_string())).collect()
}

#[test]
fn normalize_orders_by_name_then_quantity() {
    let input = [(2, "Island"), (1, "Plains"), (3, "Mountain"), (2, "Forest")];
    let sorted = normalize(entries(&input));
    assert_eq!(pairs(&sorted), owned(&[(2, "Forest"), (2, "Island"), (3, "Mountain"), (1, "Plains")]));
}

#[test]
fn normalize_of_nothing_is_nothing() {
    assert!(normalize(Vec::new()).is_empty());
}

#[test]
fn normalize_ignores_case_in_names() {
    let input = [(1, "apple"), (1, "Banana"), (1, "cherry"), (1, "APRICOT")];
    let sorted = normalize(entries(&input));
    assert_eq!(pairs(&sorted), owned(&[(1, "apple"), (1, "APRICOT"), (1, "Banana"), (1, "cherry")]));
}

#[test]
fn normalize_ignores_case_beyond_ascii() {
    let input = [(1, "\u{e9}tude"), (1, "\u{c9}clair"), (1, "\u{c6}ther Vial"), (1, "\u{e6}ther flash")];
    let sorted = normalize(entries(&input));
    assert_eq!(
        pairs(&sorted),
        owned(&[(1, "\u{e6}ther flash"), (1, "\u{c6}ther Vial"), (1, "\u{c9}clair"), (1, "\u{e9}tude")])
    );
}

#[test]
fn normalize_breaks_ties_by_quantity_then_by_the_name_as_written() {
    let input = [(3, "island"), (2, "Island"), (2, "ISLAND"), (1, "island"), (2, "island")];
    let sorted = normalize(entries(&input));
    assert_eq!(
        pairs(&sorted),
        owned(&[(1, "island"), (2, "ISLAND"), (2, "Island"), (2, "island"), (3, "island")])
    );
}

#[test]
fn normalize_keeps_entries_of_the_same_card_apart() {
    let input = [(2, "Mountain"), (1, "Mountain"), (2, "Mountain")];
    let sorted = normalize(entries(&input));
    assert_eq!(pairs(&sorted), owned(&[(1, "Mountain"), (2, "Mountain"), (2, "Mountain")]));
}

#[test]
fn normalize_is_idempotent() {
    let input = [(2, "Island"), (1, "plains"), (3, "Mountain"), (2, "forest"), (1, "Island"), (2, "ISLAND")];
    let once = normalize(entries(&input));
    let twice = normalize(once.clone());
    assert_eq!(pairs(&twice), pairs(&once));
}

#[test]
fn normalize_keeps_the_multiset_of_entries() {
    let input = [(2, "Island"), (1, "Plains"), (2, "Island"), (3, "Mountain"), (2, "island")];
    let sorted = normalize(entries(&input));
    let mut before = owned(&input);
    let mut after = pairs(&sorted);
    before.sort();
    after.sort();
    assert_eq!(after, before);
    assert_eq!(sorted.len(), input.len());
}

#[test]
fn normalize_gives_the_same_order_whatever_the_order_given() {
    let one = [(2, "Island"), (1, "Plains"), (3, "Mountain"), (2, "island"), (2, "Forest")];
    let other = [(2, "Forest"), (2, "island"), (3, "Mountain"), (1, "Plains"), (2, "Island")];
    assert_eq!(pairs(&normalize(entries(&one))), pairs(&normalize(entries(&other))));
}

fn row(primary: &str, rank: u32, secondary: &str, item: u8) -> Keyed<u8> {
    grouped(0, primary, rank, secondary, "", item)
}

fn grouped(group: u8, primary: &str, rank: u32, secondary: &str, tertiary: &str, item: u8) -> Keyed<u8> {
    Keyed {
        group,
        primary: primary.chars().collect(),
        rank,
        secondary: secondary.chars().collect(),
        tertiary: tertiary.chars().collect(),
        item,
    }
}

#[test]
fn sort_keyed_orders_rows_by_their_keys() {
    let rows = vec![
        row("b", 1, "", 0),
        row("a", 2, "z", 1),
        row("a", 2, "y", 2),
        row("a", 1, "zz", 3),
        row("", 9, "", 4),
        row("ab", 0, "", 5),
    ];
    let sorted = into_items(sort_keyed(rows));
    assert_eq!(sorted, vec![4, 3, 2, 1, 5, 0]);
}

#[test]
fn keys_are_compared_by_first_string_then_number_then_second_string() {
    assert!(key_precedes(&row("a", 9, "z", 0), &row("b", 0, "a", 0)));
    assert!(!key_precedes(&row("b", 0, "a", 0), &row("a", 9, "z", 0)));
    assert!(key_precedes(&row("a", 1, "z", 0), &row("a", 2, "a", 0)));
    assert!(!key_precedes(&row("a", 2, "a", 0), &row("a", 1, "z", 0)));
    assert!(key_precedes(&row("a", 1, "x", 0), &row("a", 1, "y", 0)));
    assert!(!key_precedes(&row("a", 1, "y", 0), &row("a", 1, "x", 0)));
    assert!(key_precedes(&row("a", 1, "x", 0), &row("a", 1, "x", 1)));
}

#[test]
fn keys_are_compared_by_group_first_and_by_the_third_string_last() {
    assert!(key_precedes(&grouped(0, "z", 9, "z", "z", 0), &grouped(1, "", 0, "", "", 0)));
    assert!(!key_precedes(&grouped(1, "", 0, "", "", 0), &grouped(0, "z", 9, "z", "z", 0)));
    assert!(key_precedes(&grouped(1, "a", 1, "x", "p", 0), &grouped(1, "a", 1, "x", "q", 0)));
    assert!(!key_precedes(&grouped(1, "a", 1, "x", "q", 0), &grouped(1, "a", 1, "x", "p", 0)));
    assert!(key_precedes(&grouped(1, "a", 1, "x", "q", 0), &grouped(1, "a", 1, "y", "p", 0)));
    let rows = vec![
        grouped(1, "", 0, "", "b", 0),
        grouped(0, "m", 3, "M", "3 M", 1),
        grouped(1, "", 0, "", "a", 2),
        grouped(0, "m", 3, "M", "03 M", 3),
    ];
    assert_eq!(into_items(sort_keyed(rows)), vec![3, 1, 2, 0]);
}

#[test]
fn strings_stand_in_ordinal_order() {
    let chars = |s: &str| -> Vec<char> { s.chars().collect() };
    assert!(matches!(ordinal_standing(&chars("abc"), &chars("abd")), Standing::Before));
    assert!(matches!(ordinal_standing(&chars("abd"), &chars("abc")), Standing::After));
    assert!(matches!(ordinal_standing(&chars("abc"), &chars("abc")), Standing::Same));
    assert!(matches!(ordinal_standing(&chars("ab"), &chars("abc")), Standing::Before));
    assert!(matches!(ordinal_standing(&chars("abc"), &chars("ab")), Standing::After));
    assert!(matches!(ordinal_standing(&chars(""), &chars("")), Standing::Same));
    assert!(matches!(ordinal_standing(&chars(""), &chars("a")), Standing::Before));
    assert!(matches!(ordinal_standing(&chars("Z"), &chars("a")), Standing::Before));
    assert!(matches!(ordinal_standing(&chars("z"), &chars("\u{e9}")), Standing::Before));
    assert!(matches!(ordinal_standing(&chars("\u{ffff}"), &chars("\u{10000}")), Standing::Before));
}

#[test]
fn ordinal_order_agrees_with_the_order_of_strings() {
    let words = ["", "a", "B", "ab", "b", "\u{e9}", "z", "\u{10000}", "\u{ffff}", "a b", "a\tb"];
    for x in words {
        for y in words {
            let a: Vec<char> = x.chars().collect();
            let b: Vec<char> = y.chars().collect();
            let expected = if x < y { 0 } else if x == y { 1 } else { 2 };
            let got = match ordinal_standing(&a, &b) {
                Standing::Before => 0,
                Standing::Same => 1,
                Standing::After => 2,
            };
            assert_eq!(got, expected, "for {:?} and {:?}", x, y);
        }
    }
}

#[test]
fn an_entry_is_keyed_by_the_folded_name_it_is_given() {
    let rows = vec![
        keyed_entry(Entry::new(1, "Plains").unwrap(), "c"),
        keyed_entry(Entry::new(1, "Island").unwrap(), "b"),
        keyed_entry(Entry::new(2, "Forest").unwrap(), "b"),
        keyed_entry(Entry::new(1, "Mountain").unwrap(), "a"),
    ];
    assert_eq!(rows[0].group, 0);
    assert!(rows[0].tertiary.is_empty());
    assert_eq!(rows[0].primary, vec!['c']);
    assert_eq!(rows[0].rank, 1);
    assert_eq!(rows[0].secondary, "Plains".chars().collect::<Vec<char>>());
    let sorted = into_items(sort_keyed(rows));
    assert_eq!(pairs(&sorted), owned(&[(1, "Mountain"), (1, "Island"), (2, "Forest"), (1, "Plains")]));
}

#[test]
fn a_line_is_keyed_by_what_it_was_read_as() {
    let entry = keyed_line("02 Island".to_string(), Some(Entry::new(2, "Island").unwrap()), "island");
    assert_eq!(entry.group, 0);
    assert_eq!(entry.primary, "island".chars().collect::<Vec<char>>());
    assert_eq!(entry.rank, 2);
    assert_eq!(entry.secondary, "Island".chars().collect::<Vec<char>>());
    assert_eq!(entry.tertiary, "02 Island".chars().collect::<Vec<char>>());
    assert_eq!(entry.item, "02 Island");
    let other = keyed_line("Island 2".to_string(), None, "");
    assert_eq!(other.group, 1);
    assert!(other.primary.is_empty());
    assert_eq!(other.rank, 0);
    assert!(other.secondary.is_empty());
    assert_eq!(other.tertiary, "Island 2".chars().collect::<Vec<char>>());
    assert!(key_precedes(&entry, &other));
    assert!(!key_precedes(&other, &entry));
}
