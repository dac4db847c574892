//! Decklist entries and the grammar of a decklist line.
//!
//! A line is a quantity written in decimal digits, white space, and a card
//! name that runs to the end of the line. White space around the line
//! counts for nothing. Digits of any script give the line its shape, but
//! only a numeral of the digits `0` to `9` that fits 32 bits is a quantity.

use crate::text::{
    chars_of, decimal_u32, decimal_value, is_decimal_digit, is_digit, is_whitespace,
    lemma_run_len_bounds, lemma_run_len_is, lemma_trimmed_bounds, lemma_trimmed_is, run_end,
    run_len, trim_bounds, trimmed, CharClass,
};
use vstd::prelude::*;
use vstd::string::StrSliceExecFns;
use vstd::string::StringExecFns;

verus! {

/// What a card name is: at least one character, all on one line, and no
/// white space at either end.
pub open spec fn is_card_name(name: Seq<char>) -> bool {
    &&& name.len() > 0
    &&& !is_whitespace(name.first())
    &&& !is_whitespace(name.last())
    &&& forall|i: int| 0 <= i < name.len() ==> name[i] != '\n'
}

/// The mathematical value of an [`Entry`].
pub struct EntryView {
    pub quantity: nat,
    pub name: Seq<char>,
}

/// The mathematical value of a [`ParseError`]: the kind of error and the
/// line it was found in.
pub enum ParseErrorView {
    InvalidFormat(Seq<char>),
    InvalidQuantity(Seq<char>),
}

/// One entry of a decklist: so many copies of the card of that name.
#[derive(Debug)]
pub struct Entry {
    quantity: u32,
    card_name: String,
}

/// Why a line is no entry. Each variant holds the line as it was given.
#[derive(Debug)]
pub enum ParseError {
    /// The line is not a quantity, white space and a name.
    InvalidFormat(String),
    /// The digits write no quantity of 32 bits.
    InvalidQuantity(String),
}

impl View for Entry {
    type V = EntryView;

    closed spec fn view(&self) -> EntryView {
        EntryView { quantity: self.quantity as nat, name: self.card_name@ }
    }
}

impl Clone for Entry {
    fn clone(&self) -> (copy: Self)
        ensures
            copy@ == self@,
    {
        proof {
            use_type_invariant(self);
        }
        Entry { quantity: self.quantity, card_name: self.card_name.clone() }
    }
}

impl DeepView for Entry {
    type V = EntryView;

    open spec fn deep_view(&self) -> EntryView {
        self@
    }
}

impl Clone for ParseError {
    fn clone(&self) -> (copy: Self)
        ensures
            copy@ == self@,
    {
        match self {
            ParseError::InvalidFormat(line) => ParseError::InvalidFormat(line.clone()),
            ParseError::InvalidQuantity(line) => ParseError::InvalidQuantity(line.clone()),
        }
    }
}

impl View for ParseError {
    type V = ParseErrorView;

    open spec fn view(&self) -> ParseErrorView {
        match self {
            ParseError::InvalidFormat(line) => ParseErrorView::InvalidFormat(line@),
            ParseError::InvalidQuantity(line) => ParseErrorView::InvalidQuantity(line@),
        }
    }
}

/// How many decimal digits the trimmed line `t` starts with.
pub open spec fn quantity_len(t: Seq<char>) -> nat {
    run_len(t, CharClass::Decimal)
}

/// The quantity that a numeral writes: the number it writes where all its
/// digits are of `0` to `9` and that number fits 32 bits.
pub open spec fn quantity_of(numeral: Seq<char>) -> Option<nat> {
    if run_len(numeral, CharClass::Digit) == numeral.len() && decimal_value(numeral) <= u32::MAX {
        Some(decimal_value(numeral))
    } else {
        None
    }
}

/// How much white space follows the digits of the trimmed line `t`.
pub open spec fn gap_len(t: Seq<char>) -> nat {
    run_len(t.skip(quantity_len(t) as int), CharClass::Whitespace)
}

/// What follows the digits and the white space of the trimmed line `t`.
pub open spec fn name_part(t: Seq<char>) -> Seq<char> {
    t.skip((quantity_len(t) + gap_len(t)) as int)
}

/// Whether the trimmed line `t` is digits, white space and a name on one
/// line, each of them present.
pub open spec fn has_entry_shape(t: Seq<char>) -> bool {
    &&& quantity_len(t) > 0
    &&& gap_len(t) > 0
    &&& name_part(t).len() > 0
    &&& forall|i: int| 0 <= i < name_part(t).len() ==> name_part(t)[i] != '\n'
}

/// What a line means: the entry it writes, or why it writes none.
pub open spec fn parse_entry(line: Seq<char>) -> Result<EntryView, ParseErrorView> {
    let t = trimmed(line);
    if !has_entry_shape(t) {
        Err(ParseErrorView::InvalidFormat(line))
    } else {
        match quantity_of(t.take(quantity_len(t) as int)) {
            Some(quantity) => Ok(EntryView { quantity, name: name_part(t) }),
            None => Err(ParseErrorView::InvalidQuantity(line)),
        }
    }
}

/// What a list of lines means: the entries they write, line by line, or
/// the error of the first line that writes none.
pub open spec fn parse_all(lines: Seq<Seq<char>>) -> Result<Seq<EntryView>, ParseErrorView>
    decreases lines.len(),
{
    if lines.len() == 0 {
        Ok(Seq::empty())
    } else {
        match parse_all(lines.drop_last()) {
            Err(error) => Err(error),
            Ok(entries) => match parse_entry(lines.last()) {
                Err(error) => Err(error),
                Ok(entry) => Ok(entries.push(entry)),
            },
        }
    }
}

/// Whether `t` splits at `digits_end` and `name_start` into one or more
/// decimal digits, one or more white-space characters, and one or more
/// characters after them.
pub open spec fn is_entry_split(t: Seq<char>, digits_end: int, name_start: int) -> bool {
    &&& 0 < digits_end < name_start < t.len()
    &&& forall|i: int| 0 <= i < digits_end ==> is_decimal_digit(#[trigger] t[i])
    &&& forall|i: int| digits_end <= i < name_start ==> is_whitespace(#[trigger] t[i])
}

/// Every well-written line is read as what it writes. Take any white space,
/// then digits of `0` to `9` that write a number of 32 bits, then white
/// space, then text that holds a name on one line with any white space
/// around it: the line made of these four is the entry of that number and
/// that name, trimmed.
pub proof fn lemma_valid_line_parses(
    indent: Seq<char>,
    digits: Seq<char>,
    gap: Seq<char>,
    name: Seq<char>,
)
    requires
        forall|i: int| 0 <= i < indent.len() ==> is_whitespace(#[trigger] indent[i]),
        digits.len() > 0,
        forall|i: int| 0 <= i < digits.len() ==> is_digit(#[trigger] digits[i]),
        decimal_value(digits) <= u32::MAX,
        gap.len() > 0,
        forall|i: int| 0 <= i < gap.len() ==> is_whitespace(#[trigger] gap[i]),
        trimmed(name).len() > 0,
        forall|i: int| 0 <= i < trimmed(name).len() ==> #[trigger] trimmed(name)[i] != '\n',
    ensures
        parse_entry(indent + digits + gap + name) == Ok::<EntryView, ParseErrorView>(
            EntryView { quantity: decimal_value(digits), name: trimmed(name) },
        ),
        is_card_name(trimmed(name)),
{
    let line = indent + digits + gap + name;
    let (a, b) = lemma_trimmed_bounds(name);
    let quantity_at = indent.len() as int;
    let gap_at = quantity_at + digits.len();
    let name_at = gap_at + gap.len();
    assert(trimmed(name).first() == name[a]);
    assert(trimmed(name).last() == name[b - 1]);
    assert(line[quantity_at] == digits[0]);
    assert(line[name_at + b - 1] == name[b - 1]);
    assert forall|i: int| 0 <= i < quantity_at implies is_whitespace(#[trigger] line[i]) by {
        assert(line[i] == indent[i]);
    }
    assert forall|i: int| name_at + b <= i < line.len() implies is_whitespace(
        #[trigger] line[i],
    ) by {
        assert(line[i] == name[i - name_at]);
    }
    lemma_trimmed_is(line, quantity_at, name_at + b);
    let t = trimmed(line);
    assert forall|i: int| 0 <= i < digits.len() implies is_decimal_digit(#[trigger] t[i]) by {
        assert(t[i] == digits[i]);
    }
    assert(t[digits.len() as int] == gap[0]);
    lemma_run_len_is(t, CharClass::Decimal, digits.len() as int);
    lemma_run_len_is(digits, CharClass::Digit, digits.len() as int);
    let after_digits = t.skip(digits.len() as int);
    assert forall|i: int| 0 <= i < gap.len() + a implies is_whitespace(
        #[trigger] after_digits[i],
    ) by {
        if i < gap.len() {
            assert(after_digits[i] == gap[i]);
        } else {
            assert(after_digits[i] == name[i - gap.len()]);
        }
    }
    assert(after_digits[gap.len() + a] == name[a]);
    lemma_run_len_is(after_digits, CharClass::Whitespace, gap.len() + a);
    assert(name_part(t) == trimmed(name));
    assert(t.take(digits.len() as int) == digits);
}

/// A line that, trimmed, is not digits, white space and something after
/// them, however it is split, is no entry: its format is invalid.
pub proof fn lemma_unmatched_line_is_rejected(line: Seq<char>)
    requires
        forall|digits_end: int, name_start: int|
            !#[trigger] is_entry_split(trimmed(line), digits_end, name_start),
    ensures
        parse_entry(line) == Err::<EntryView, ParseErrorView>(ParseErrorView::InvalidFormat(line)),
{
    let t = trimmed(line);
    if has_entry_shape(t) {
        let digits_end = quantity_len(t) as int;
        let name_start = digits_end + gap_len(t);
        let after_digits = t.skip(digits_end);
        lemma_run_len_bounds(t, CharClass::Decimal);
        lemma_run_len_bounds(after_digits, CharClass::Whitespace);
        assert forall|i: int| digits_end <= i < name_start implies is_whitespace(
            #[trigger] t[i],
        ) by {
            assert(t[i] == after_digits[i - digits_end]);
        }
        assert(is_entry_split(t, digits_end, name_start));
    }
}

/// What is read from a line is an entry: its name is a card name and its
/// quantity fits 32 bits.
pub proof fn lemma_parsed_entry_is_well_formed(line: Seq<char>)
    requires
        parse_entry(line) is Ok,
    ensures
        is_card_name(parse_entry(line)->Ok_0.name),
        parse_entry(line)->Ok_0.quantity <= u32::MAX,
{
    let t = trimmed(line);
    let bounds = lemma_trimmed_bounds(line);
    let after_digits = t.skip(quantity_len(t) as int);
    lemma_run_len_bounds(t, CharClass::Decimal);
    lemma_run_len_bounds(after_digits, CharClass::Whitespace);
    let name = name_part(t);
    assert(name.first() == after_digits[gap_len(t) as int]);
    assert(name.last() == t.last());
}

/// An error among the first `k` lines is the error of the whole list.
pub proof fn lemma_parse_all_prefix_error(lines: Seq<Seq<char>>, k: int)
    requires
        0 <= k <= lines.len(),
        parse_all(lines.take(k)) is Err,
    ensures
        parse_all(lines) == parse_all(lines.take(k)),
    decreases lines.len() - k,
{
    if k < lines.len() {
        assert(lines.drop_last().take(k) == lines.take(k));
        lemma_parse_all_prefix_error(lines.drop_last(), k);
    } else {
        assert(lines.take(k) == lines);
    }
}

/// Validation is all or nothing. A list is accepted if and only if each
/// of its lines is an entry, and then it gives the entries in the order of
/// the lines. Otherwise it gives the error of the first line that is none.
pub proof fn lemma_parse_all_is(lines: Seq<Seq<char>>)
    ensures
        match parse_all(lines) {
            Ok(entries) => {
                &&& entries.len() == lines.len()
                &&& forall|i: int|
                    0 <= i < lines.len() ==> #[trigger] parse_entry(lines[i]) == Ok::<
                        EntryView,
                        ParseErrorView,
                    >(entries[i])
            },
            Err(error) => exists|i: int|
                {
                    &&& 0 <= i < lines.len()
                    &&& #[trigger] parse_entry(lines[i]) == Err::<EntryView, ParseErrorView>(error)
                    &&& forall|j: int| 0 <= j < i ==> #[trigger] parse_entry(lines[j]) is Ok
                },
        },
    decreases lines.len(),
{
    if lines.len() > 0 {
        let front = lines.drop_last();
        lemma_parse_all_is(front);
        match parse_all(front) {
            Ok(entries) => {
                assert forall|j: int| 0 <= j < front.len() implies #[trigger] parse_entry(
                    lines[j],
                ) is Ok by {
                    assert(parse_entry(front[j]) is Ok);
                }
                match parse_entry(lines.last()) {
                    Ok(entry) => {
                        let all = entries.push(entry);
                        assert forall|i: int| 0 <= i < lines.len() implies #[trigger] parse_entry(
                            lines[i],
                        ) == Ok::<EntryView, ParseErrorView>(all[i]) by {
                            if i < front.len() {
                                assert(parse_entry(front[i]) == Ok::<EntryView, ParseErrorView>(
                                    entries[i],
                                ));
                            }
                        }
                    },
                    Err(error) => {
                        assert(parse_entry(lines[lines.len() - 1]) == Err::<
                            EntryView,
                            ParseErrorView,
                        >(error));
                    },
                }
            },
            Err(error) => {
                let i = choose|i: int|
                    {
                        &&& 0 <= i < front.len()
                        &&& #[trigger] parse_entry(front[i]) == Err::<EntryView, ParseErrorView>(
                            error,
                        )
                        &&& forall|j: int| 0 <= j < i ==> #[trigger] parse_entry(front[j]) is Ok
                    };
                assert(parse_entry(lines[i]) == Err::<EntryView, ParseErrorView>(error));
                assert forall|j: int| 0 <= j < i implies #[trigger] parse_entry(lines[j]) is Ok by {
                    assert(parse_entry(front[j]) is Ok);
                }
            },
        }
    }
}

impl Entry {
    #[verifier::type_invariant]
    spec fn well_formed(self) -> bool {
        is_card_name(self.card_name@)
    }

    /// The entry of `quantity` copies of the card `card_name`, where that
    /// is a card name.
    pub fn new(quantity: u32, card_name: &str) -> (entry: Option<Entry>)
        ensures
            match entry {
                Some(e) => is_card_name(card_name@) && e@ == (EntryView {
                    quantity: quantity as nat,
                    name: card_name@,
                }),
                None => !is_card_name(card_name@),
            },
    {
        let chars = chars_of(card_name);
        let len: usize = chars.len();
        if len == 0 || CharClass::Whitespace.contains(chars[0]) || CharClass::Whitespace.contains(
            chars[len - 1],
        ) {
            return None;
        }
        let line_end: usize = run_end(&chars, 0, len, CharClass::SameLine);
        proof {
            assert(chars@.subrange(0, len as int) == card_name@);
            lemma_run_len_bounds(card_name@, CharClass::SameLine);
        }
        if line_end < len {
            return None;
        }
        Some(Entry { quantity, card_name: card_name.to_owned() })
    }

    /// How many copies of the card the entry asks for.
    pub fn quantity(&self) -> (quantity: u32)
        ensures
            quantity == self@.quantity,
    {
        self.quantity
    }

    /// The name of the card.
    pub fn card_name(&self) -> (name: &str)
        ensures
            name@ == self@.name,
            is_card_name(name@),
    {
        proof {
            use_type_invariant(self);
        }
        self.card_name.as_str()
    }
}

impl ParseError {
    /// The line that is no entry.
    pub open spec fn spec_line(&self) -> Seq<char> {
        match self {
            ParseError::InvalidFormat(line) => line@,
            ParseError::InvalidQuantity(line) => line@,
        }
    }

    /// The line that is no entry, as it was given.
    pub fn line(&self) -> (line: &str)
        ensures
            line@ == self.spec_line(),
    {
        match self {
            ParseError::InvalidFormat(line) => line.as_str(),
            ParseError::InvalidQuantity(line) => line.as_str(),
        }
    }

    /// The error in words: what is wrong, and the line.
    pub fn message(&self) -> (message: String)
        ensures
            message@ == match self {
                ParseError::InvalidFormat(line) => "Invalid card entry format: "@ + line@,
                ParseError::InvalidQuantity(line) => "Invalid count in entry: "@ + line@,
            },
    {
        match self {
            ParseError::InvalidFormat(line) => "Invalid card entry format: ".to_owned().concat(
                line.as_str(),
            ),
            ParseError::InvalidQuantity(line) => "Invalid count in entry: ".to_owned().concat(
                line.as_str(),
            ),
        }
    }
}

/// How a scan of the trimmed line `t` relates to what the line means. The
/// scan gives where the digits end, where the name starts, and where the
/// first line of the name ends.
proof fn lemma_scan_is_parse(t: Seq<char>, digits_end: int, name_start: int, line_end: int)
    requires
        0 <= digits_end <= name_start <= line_end <= t.len(),
        digits_end == run_len(t, CharClass::Decimal),
        name_start - digits_end == run_len(t.skip(digits_end), CharClass::Whitespace),
        line_end - name_start == run_len(t.skip(name_start), CharClass::SameLine),
    ensures
        name_part(t) == t.skip(name_start),
        has_entry_shape(t) <==> 0 < digits_end < name_start < t.len() && line_end == t.len(),
        name_start < t.len() ==> !is_whitespace(t[name_start]),
{
    let name = t.skip(name_start);
    lemma_run_len_bounds(t.skip(digits_end), CharClass::Whitespace);
    lemma_run_len_bounds(name, CharClass::SameLine);
    if name_start < t.len() {
        assert(t[name_start] == t.skip(digits_end)[name_start - digits_end]);
    }
    if line_end < t.len() {
        assert(name[line_end - name_start] == '\n');
    }
}

/// Reads one line of a decklist.
pub fn validate_card_list_entry(entry: &str) -> (result: Result<Entry, ParseError>)
    ensures
        match result {
            Ok(e) => parse_entry(entry@) == Ok::<EntryView, ParseErrorView>(e@),
            Err(e) => parse_entry(entry@) == Err::<EntryView, ParseErrorView>(e@),
        },
{
    let chars = chars_of(entry);
    let (start, end) = trim_bounds(&chars, 0, chars.len());
    let digits_end: usize = run_end(&chars, start, end, CharClass::Decimal);
    let name_start: usize = run_end(&chars, digits_end, end, CharClass::Whitespace);
    let line_end: usize = run_end(&chars, name_start, end, CharClass::SameLine);
    let ghost t = chars@.subrange(start as int, end as int);
    proof {
        assert(chars@.subrange(0, chars.len() as int) == entry@);
        assert(t == trimmed(entry@));
        assert(t.skip(digits_end - start) == chars@.subrange(digits_end as int, end as int));
        assert(t.skip(name_start - start) == chars@.subrange(name_start as int, end as int));
        assert(t.take(digits_end - start) == chars@.subrange(start as int, digits_end as int));
        lemma_scan_is_parse(t, digits_end - start, name_start - start, line_end - start);
    }
    if digits_end == start || name_start == digits_end || name_start == end || line_end < end {
        return Err(ParseError::InvalidFormat(entry.to_owned()));
    }
    let plain_end: usize = run_end(&chars, start, digits_end, CharClass::Digit);
    let ghost numeral = chars@.subrange(start as int, digits_end as int);
    if plain_end < digits_end {
        return Err(ParseError::InvalidQuantity(entry.to_owned()));
    }
    proof {
        lemma_run_len_bounds(numeral, CharClass::Digit);
    }
    assert forall|i: int| start <= i < digits_end implies is_digit(#[trigger] chars@[i]) by {
        assert(chars@[i] == numeral[i - start]);
    }
    match decimal_u32(&chars, start, digits_end) {
        None => Err(ParseError::InvalidQuantity(entry.to_owned())),
        Some(quantity) => {
            let card_name = entry.substring_char(name_start, end).to_owned();
            proof {
                assert(card_name@ == name_part(t));
                assert(card_name@.first() == t[name_start - start]);
                assert(card_name@.last() == t.last());
            }
            Ok(Entry { quantity, card_name })
        },
    }
}

/// Reads the lines of a decklist, all or nothing: the entries in the
/// order of the lines, or the error of the first line that is no entry.
pub fn validate_card_list(entries: &[&str]) -> (result: Result<Vec<Entry>, ParseError>)
    ensures
        match result {
            Ok(list) => parse_all(entries.deep_view()) == Ok::<Seq<EntryView>, ParseErrorView>(
                list.deep_view(),
            ),
            Err(e) => parse_all(entries.deep_view()) == Err::<Seq<EntryView>, ParseErrorView>(e@),
        },
{
    let ghost lines = entries.deep_view();
    let mut list: Vec<Entry> = Vec::new();
    let mut i: usize = 0;
    proof {
        assert(lines.take(0).len() == 0);
        assert(list.deep_view() == Seq::<EntryView>::empty());
    }
    while i < entries.len()
        invariant
            i <= entries.len(),
            lines == entries.deep_view(),
            parse_all(lines.take(i as int)) == Ok::<Seq<EntryView>, ParseErrorView>(
                list.deep_view(),
            ),
        decreases entries.len() - i,
    {
        let ghost before = list.deep_view();
        proof {
            assert(lines.take(i + 1).drop_last() == lines.take(i as int));
            assert(lines.take(i + 1).last() == entries[i as int]@);
        }
        match validate_card_list_entry(entries[i]) {
            Ok(entry) => {
                list.push(entry);
                assert(list.deep_view() == before.push(entry@));
            },
            Err(error) => {
                proof {
                    lemma_parse_all_prefix_error(lines, i + 1);
                }
                return Err(error);
            },
        }
        i += 1;
    }
    proof {
        assert(lines.take(i as int) == lines);
    }
    Ok(list)
}

} // verus!
