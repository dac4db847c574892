//! The order of a decklist: by card name without regard to case, then by
//! quantity, then by the name as it is written. Entries are put in this
//! order, and so are the lines of a decklist's text.

use crate::entry::{parse_entry, validate_card_list_entry, Entry, EntryView};
use crate::lines::{entry_lines, split_lines};
use crate::order::{
    into_items, key_le, lemma_key_le_antisymmetric, lemma_key_le_reflexive, lemma_key_le_total,
    lemma_key_le_transitive, lemma_sorted_rows, sort_keyed, Keyed, SortKey,
};
use crate::text::chars_of;
use vstd::prelude::*;
use vstd::relations::{sorted_by, total_ordering};
use vstd::seq_lib::lemma_sorted_unique;

verus! {

/// The lower-case form of `text`, as `str::to_lowercase` gives it.
pub uninterp spec fn lowercase_of(text: Seq<char>) -> Seq<char>;

/// What an entry is sorted by: its name in lower case, then its quantity,
/// then its name as written.
pub open spec fn entry_key(entry: EntryView) -> SortKey {
    SortKey {
        group: 0,
        primary: lowercase_of(entry.name),
        rank: entry.quantity,
        secondary: entry.name,
        tertiary: Seq::empty(),
    }
}

/// Whether `a` stands at or before `b` in a normalized list.
pub open spec fn entry_le(a: EntryView, b: EntryView) -> bool {
    key_le(entry_key(a), entry_key(b))
}

/// The order of entries as a relation.
pub open spec fn entry_order() -> spec_fn(EntryView, EntryView) -> bool {
    |a: EntryView, b: EntryView| entry_le(a, b)
}

/// Whether the entries stand in order, each at or before all that follow
/// it.
pub open spec fn entries_ascend(entries: Seq<EntryView>) -> bool {
    forall|i: int, j: int| 0 <= i < j < entries.len() ==> entry_le(entries[i], entries[j])
}

/// The entries of `entries` in order.
pub open spec fn normalized(entries: Seq<EntryView>) -> Seq<EntryView> {
    entries.sort_by(entry_order())
}

/// The order of entries is total, and no two entries stand at the same
/// place in it unless they are the same entry.
pub proof fn lemma_entry_order_is_total()
    ensures
        total_ordering(entry_order()),
{
    let order = entry_order();
    assert forall|x: EntryView| #[trigger] order(x, x) by {
        lemma_key_le_reflexive(entry_key(x));
    }
    assert forall|x: EntryView, y: EntryView| #[trigger] order(x, y) && #[trigger] order(
        y,
        x,
    ) implies x == y by {
        lemma_key_le_antisymmetric(entry_key(x), entry_key(y));
    }
    assert forall|x: EntryView, y: EntryView, z: EntryView| #[trigger] order(x, y)
        && #[trigger] order(y, z) implies order(x, z) by {
        lemma_key_le_transitive(entry_key(x), entry_key(y), entry_key(z));
    }
    assert forall|x: EntryView, y: EntryView| #[trigger] order(x, y) || #[trigger] order(y, x) by {
        lemma_key_le_total(entry_key(x), entry_key(y));
    }
}

/// A list has one normalized form: entries in order that are the entries
/// of `entries`, each as often as there, are `normalized(entries)`.
pub proof fn lemma_normalized_is(entries: Seq<EntryView>, ordered: Seq<EntryView>)
    requires
        entries_ascend(ordered),
        ordered.to_multiset() == entries.to_multiset(),
    ensures
        ordered == normalized(entries),
{
    lemma_entry_order_is_total();
    entries.lemma_sort_by_ensures(entry_order());
    assert(sorted_by(ordered, entry_order()));
    lemma_sorted_unique(ordered, normalized(entries), entry_order());
}

/// Normalizing keeps the entries: the same entries, each as often as
/// before, and so as many as before. Only their order changes.
pub proof fn lemma_normalize_keeps_entries(entries: Seq<EntryView>)
    ensures
        normalized(entries).to_multiset() == entries.to_multiset(),
        normalized(entries).len() == entries.len(),
{
    lemma_entry_order_is_total();
    entries.lemma_sort_by_ensures(entry_order());
    entries.to_multiset_ensures();
    normalized(entries).to_multiset_ensures();
}

/// A normalized list stands in order.
pub proof fn lemma_normalized_ascends(entries: Seq<EntryView>)
    ensures
        entries_ascend(normalized(entries)),
{
    lemma_entry_order_is_total();
    entries.lemma_sort_by_ensures(entry_order());
    let ordered = normalized(entries);
    assert forall|i: int, j: int| 0 <= i < j < ordered.len() implies entry_le(
        ordered[i],
        ordered[j],
    ) by {
        assert(entry_order()(ordered[i], ordered[j]));
    }
}

/// Normalizing twice is normalizing once.
pub proof fn lemma_normalize_idempotent(entries: Seq<EntryView>)
    ensures
        normalized(normalized(entries)) == normalized(entries),
{
    lemma_normalized_ascends(entries);
    lemma_normalized_is(normalized(entries), normalized(entries));
}

/// A list that stands in order is its own normalized form.
pub proof fn lemma_normalize_ordered(entries: Seq<EntryView>)
    requires
        entries_ascend(entries),
    ensures
        normalized(entries) == entries,
{
    lemma_normalized_is(entries, entries);
}

/// What a line of a decklist is sorted by. A line that is an entry is
/// sorted as that entry, and among the lines of one entry by the line as
/// written. A line that is none stands behind all entries, by the line as
/// written.
pub open spec fn line_key(line: Seq<char>) -> SortKey {
    match parse_entry(line) {
        Ok(entry) => SortKey {
            group: 0,
            primary: lowercase_of(entry.name),
            rank: entry.quantity,
            secondary: entry.name,
            tertiary: line,
        },
        Err(_) => SortKey {
            group: 1,
            primary: Seq::empty(),
            rank: 0,
            secondary: Seq::empty(),
            tertiary: line,
        },
    }
}

/// Whether the line `a` stands at or before the line `b`.
pub open spec fn line_le(a: Seq<char>, b: Seq<char>) -> bool {
    key_le(line_key(a), line_key(b))
}

/// The order of lines as a relation.
pub open spec fn line_order() -> spec_fn(Seq<char>, Seq<char>) -> bool {
    |a: Seq<char>, b: Seq<char>| line_le(a, b)
}

/// Whether the lines stand in order, each at or before all that follow it.
pub open spec fn lines_ascend(lines: Seq<Seq<char>>) -> bool {
    forall|i: int, j: int| 0 <= i < j < lines.len() ==> line_le(lines[i], lines[j])
}

/// Lines in order have their entries in order: of two lines that are
/// entries, the one that stands at or before the other holds the entry that
/// stands at or before the other's. And no line that is no entry stands at
/// or before one that is.
pub proof fn lemma_line_order_is_entry_order(a: Seq<char>, b: Seq<char>)
    requires
        line_le(a, b),
    ensures
        parse_entry(b) is Ok ==> parse_entry(a) is Ok,
        parse_entry(a) is Ok && parse_entry(b) is Ok ==> entry_le(
            parse_entry(a)->Ok_0,
            parse_entry(b)->Ok_0,
        ),
{
    if parse_entry(a) is Ok && parse_entry(b) is Ok {
        let x = entry_key(parse_entry(a)->Ok_0);
        let y = entry_key(parse_entry(b)->Ok_0);
        if x.primary == y.primary && x.rank == y.rank && x.secondary == y.secondary {
            assert(x == y);
            lemma_key_le_reflexive(x);
        }
    }
}

/// The entries that lines write, line by line, where each line is one.
pub open spec fn entries_of(lines: Seq<Seq<char>>) -> Seq<EntryView> {
    lines.map_values(|line: Seq<char>| parse_entry(line)->Ok_0)
}

/// Lines in order write a normalized list: where each of them is an entry,
/// the entries they write stand in order, and normalizing changes nothing.
pub proof fn lemma_lines_in_order_are_normalized(lines: Seq<Seq<char>>)
    requires
        lines_ascend(lines),
        forall|i: int| 0 <= i < lines.len() ==> parse_entry(#[trigger] lines[i]) is Ok,
    ensures
        entries_ascend(entries_of(lines)),
        normalized(entries_of(lines)) == entries_of(lines),
{
    let entries = entries_of(lines);
    assert forall|i: int, j: int| 0 <= i < j < entries.len() implies entry_le(
        entries[i],
        entries[j],
    ) by {
        assert(parse_entry(lines[i]) is Ok);
        assert(parse_entry(lines[j]) is Ok);
        lemma_line_order_is_entry_order(lines[i], lines[j]);
    }
    lemma_normalized_is(entries, entries);
}

/// Lines have one order: two lists that both stand in order and hold the
/// same lines, each as often, are the same list.
pub proof fn lemma_ascending_lines_are_unique(one: Seq<Seq<char>>, other: Seq<Seq<char>>)
    requires
        lines_ascend(one),
        lines_ascend(other),
        one.to_multiset() == other.to_multiset(),
    ensures
        one == other,
{
    let order = line_order();
    assert forall|x: Seq<char>| #[trigger] order(x, x) by {
        lemma_key_le_reflexive(line_key(x));
    }
    assert forall|x: Seq<char>, y: Seq<char>| #[trigger] order(x, y) && #[trigger] order(
        y,
        x,
    ) implies x == y by {
        lemma_key_le_antisymmetric(line_key(x), line_key(y));
    }
    assert forall|x: Seq<char>, y: Seq<char>, z: Seq<char>| #[trigger] order(x, y)
        && #[trigger] order(y, z) implies order(x, z) by {
        lemma_key_le_transitive(line_key(x), line_key(y), line_key(z));
    }
    assert forall|x: Seq<char>, y: Seq<char>| #[trigger] order(x, y) || #[trigger] order(y, x) by {
        lemma_key_le_total(line_key(x), line_key(y));
    }
    assert(total_ordering(order));
    assert(sorted_by(one, order));
    assert(sorted_by(other, order));
    lemma_sorted_unique(one, other, order);
}

/// The lower-case form of `text`. This is `str::to_lowercase` of the
/// standard library, which follows Unicode's rules and no locale; what it
/// returns is believed to be a function of `text` alone, and nothing more is
/// claimed of it.
#[verifier::external_body]
fn lowercase(text: &str) -> (folded: String)
    ensures
        folded@ == lowercase_of(text@),
{
    text.to_lowercase()
}

/// The row that `entry` is sorted as, given its name in lower case.
pub fn keyed_entry(entry: Entry, folded_name: &str) -> (row: Keyed<Entry>)
    ensures
        row.item == entry,
        row.key() == (SortKey {
            group: 0,
            primary: folded_name@,
            rank: entry@.quantity,
            secondary: entry@.name,
            tertiary: Seq::empty(),
        }),
{
    let primary = chars_of(folded_name);
    let secondary = chars_of(entry.card_name());
    let rank: u32 = entry.quantity();
    Keyed { group: 0, primary, rank, secondary, tertiary: Vec::new(), item: entry }
}

/// The row that `line` is sorted as, given what the line was read as and,
/// for an entry, its name in lower case.
pub fn keyed_line(line: String, entry: Option<Entry>, folded_name: &str) -> (row: Keyed<
    String,
>)
    ensures
        row.item == line,
        row.key() == match entry {
            Some(e) => SortKey {
                group: 0,
                primary: folded_name@,
                rank: e@.quantity,
                secondary: e@.name,
                tertiary: line@,
            },
            None => SortKey {
                group: 1,
                primary: Seq::empty(),
                rank: 0,
                secondary: Seq::empty(),
                tertiary: line@,
            },
        },
{
    let tertiary = chars_of(line.as_str());
    match entry {
        Some(e) => Keyed {
            group: 0,
            primary: chars_of(folded_name),
            rank: e.quantity(),
            secondary: chars_of(e.card_name()),
            tertiary,
            item: line,
        },
        None => Keyed {
            group: 1,
            primary: Vec::new(),
            rank: 0,
            secondary: Vec::new(),
            tertiary,
            item: line,
        },
    }
}

/// The value of the entry that a row holds.
pub open spec fn entry_of(row: Keyed<Entry>) -> EntryView {
    row.item@
}

/// Puts the entries of a decklist in order: by name without regard to
/// case, entries of one name by quantity, and entries that differ only in
/// how the name is written by the name as written. No entry is added,
/// dropped or merged with another.
pub fn normalize(entries: Vec<Entry>) -> (sorted: Vec<Entry>)
    ensures
        sorted.deep_view() == normalized(entries.deep_view()),
        entries_ascend(sorted.deep_view()),
        sorted.deep_view().to_multiset() == entries.deep_view().to_multiset(),
        sorted.len() == entries.len(),
{
    let mut rows: Vec<Keyed<Entry>> = Vec::new();
    for entry in it: entries
        invariant
            it.seq() == entries@,
            rows@.len() == it.history().len(),
            forall|k: int| 0 <= k < rows@.len() ==> (#[trigger] rows@[k]).item == it.history()[k],
            forall|k: int|
                0 <= k < rows@.len() ==> (#[trigger] rows@[k]).key() == entry_key(rows@[k].item@),
    {
        let folded = lowercase(entry.card_name());
        let row = keyed_entry(entry, folded.as_str());
        rows.push(row);
    }
    let ghost unsorted = rows@;
    let sorted_rows = sort_keyed(rows);
    let ghost ordered = sorted_rows@;
    let sorted = into_items(sorted_rows);
    proof {
        let value_of = |row: Keyed<Entry>| entry_of(row);
        let key_of = |entry: EntryView| entry_key(entry);
        assert(entries.deep_view() == unsorted.map_values(value_of));
        assert(sorted.deep_view() == ordered.map_values(value_of));
        lemma_sorted_rows(unsorted, ordered, value_of, key_of);
        lemma_normalized_is(entries.deep_view(), sorted.deep_view());
        lemma_normalize_keeps_entries(entries.deep_view());
    }
    sorted
}

/// The text of the line that a row holds.
pub open spec fn line_of(row: Keyed<String>) -> Seq<char> {
    row.item@
}

/// The lines of a decklist's text in the order of a decklist: blank lines
/// left out, each line trimmed, the lines that are entries by name without
/// regard to case and then by quantity, and the lines that are no entry
/// behind them. No line is added, dropped or merged with another.
pub fn sort_raw_card_list(cards: String) -> (sorted: Vec<String>)
    ensures
        sorted.deep_view().to_multiset() == entry_lines(cards@).to_multiset(),
        sorted.len() == entry_lines(cards@).len(),
        lines_ascend(sorted.deep_view()),
        forall|i: int, j: int|
            0 <= i < j < sorted.len() && parse_entry(sorted.deep_view()[i]) is Ok && parse_entry(
                sorted.deep_view()[j],
            ) is Ok ==> entry_le(
                parse_entry(#[trigger] sorted.deep_view()[i])->Ok_0,
                parse_entry(#[trigger] sorted.deep_view()[j])->Ok_0,
            ),
        forall|i: int, j: int|
            0 <= i < j < sorted.len() && parse_entry(#[trigger] sorted.deep_view()[j]) is Ok
                ==> parse_entry(#[trigger] sorted.deep_view()[i]) is Ok,
{
    let lines = split_lines(cards.as_str());
    let mut rows: Vec<Keyed<String>> = Vec::new();
    for line in it: lines
        invariant
            it.seq() == lines@,
            rows@.len() == it.history().len(),
            forall|k: int| 0 <= k < rows@.len() ==> (#[trigger] rows@[k]).item == it.history()[k],
            forall|k: int|
                0 <= k < rows@.len() ==> (#[trigger] rows@[k]).key() == line_key(rows@[k].item@),
    {
        let row = match validate_card_list_entry(line.as_str()) {
            Ok(entry) => {
                let folded = lowercase(entry.card_name());
                keyed_line(line, Some(entry), folded.as_str())
            },
            Err(_) => keyed_line(line, None, ""),
        };
        rows.push(row);
    }
    let ghost unsorted = rows@;
    let sorted_rows = sort_keyed(rows);
    let ghost ordered = sorted_rows@;
    let sorted = into_items(sorted_rows);
    proof {
        let text_of = |row: Keyed<String>| line_of(row);
        let key_of = |line: Seq<char>| line_key(line);
        assert(lines.deep_view() == unsorted.map_values(text_of));
        assert(sorted.deep_view() == ordered.map_values(text_of));
        lemma_sorted_rows(unsorted, ordered, text_of, key_of);
        let texts = sorted.deep_view();
        assert forall|i: int, j: int| 0 <= i < j < texts.len() implies line_le(
            texts[i],
            texts[j],
        ) by {
            assert(key_le(key_of(texts[i]), key_of(texts[j])));
        }
        assert forall|i: int, j: int| 0 <= i < j < texts.len() implies (parse_entry(
            #[trigger] texts[j],
        ) is Ok ==> parse_entry(#[trigger] texts[i]) is Ok) && (parse_entry(texts[i]) is Ok
            && parse_entry(texts[j]) is Ok ==> entry_le(
            parse_entry(texts[i])->Ok_0,
            parse_entry(texts[j])->Ok_0,
        )) by {
            lemma_line_order_is_entry_order(texts[i], texts[j]);
        }
    }
    sorted
}

} // verus!
