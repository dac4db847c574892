//! Characters and character sequences: classes of characters, runs,
//! trimming and decimal numerals.

use regex::Regex;
use vstd::prelude::*;

verus! {

/// The characters that Unicode gives the property `White_Space`.
pub open spec fn is_whitespace(c: char) -> bool {
    ||| '\u{9}' <= c <= '\u{D}'
    ||| c == ' '
    ||| c == '\u{85}'
    ||| c == '\u{A0}'
    ||| c == '\u{1680}'
    ||| '\u{2000}' <= c <= '\u{200A}'
    ||| c == '\u{2028}'
    ||| c == '\u{2029}'
    ||| c == '\u{202F}'
    ||| c == '\u{205F}'
    ||| c == '\u{3000}'
}

/// The ten decimal digits `0` to `9`.
pub open spec fn is_digit(c: char) -> bool {
    '0' <= c <= '9'
}

/// Whether the regular expression `pattern`, as the `regex` crate reads
/// it, matches the text made of the one character `c`; `None` where
/// `pattern` is no regular expression.
pub uninterp spec fn pattern_matches(pattern: Seq<char>, c: char) -> Option<bool>;

/// The decimal digits of all scripts: the ten digits `0` to `9`, and what
/// else the class `\d` of regular expressions holds. No white space is one.
pub open spec fn is_decimal_digit(c: char) -> bool {
    is_digit(c) || (!is_whitespace(c) && pattern_matches("\\d"@, c) == Some(true))
}

/// The number that the decimal digit `c` stands for.
pub open spec fn digit_value(c: char) -> nat
    recommends
        is_digit(c),
{
    (c as int - '0' as int) as nat
}

/// A class of characters that a scan can follow.
#[derive(Clone, Copy, Debug)]
pub enum CharClass {
    /// White space, see [`is_whitespace`].
    Whitespace,
    /// One of the digits `0` to `9`, see [`is_digit`].
    Digit,
    /// A decimal digit of any script, see [`is_decimal_digit`].
    Decimal,
    /// Any character but the line feed.
    SameLine,
}

impl CharClass {
    /// Whether `c` belongs to the class.
    pub open spec fn has(self, c: char) -> bool {
        match self {
            CharClass::Whitespace => is_whitespace(c),
            CharClass::Digit => is_digit(c),
            CharClass::Decimal => is_decimal_digit(c),
            CharClass::SameLine => c != '\n',
        }
    }

    /// Whether `c` belongs to the class.
    pub fn contains(self, c: char) -> (b: bool)
        ensures
            b == self.has(c),
    {
        match self {
            CharClass::Whitespace => char_is_whitespace(c),
            CharClass::Digit => '0' <= c && c <= '9',
            CharClass::Decimal => {
                if '0' <= c && c <= '9' {
                    true
                } else if char_is_whitespace(c) {
                    false
                } else {
                    match matches_char("\\d", c) {
                        Some(matched) => matched,
                        None => false,
                    }
                }
            },
            CharClass::SameLine => c != '\n',
        }
    }
}

/// Whether `c` is white space.
pub fn char_is_whitespace(c: char) -> (b: bool)
    ensures
        b == is_whitespace(c),
{
    ('\u{9}' <= c && c <= '\u{D}') || c == ' ' || c == '\u{85}' || c == '\u{A0}' || c == '\u{1680}'
        || ('\u{2000}' <= c && c <= '\u{200A}') || c == '\u{2028}' || c == '\u{2029}' || c
        == '\u{202F}' || c == '\u{205F}' || c == '\u{3000}'
}

/// Asks the `regex` crate whether `pattern` matches the one character `c`:
/// `Regex::new` reads the pattern and `Regex::is_match` searches the text
/// that holds `c` alone. What comes back is believed to depend on the
/// pattern and the character alone, and nothing more is claimed of it.
#[verifier::external_body]
fn matches_char(pattern: &str, c: char) -> (matched: Option<bool>)
    ensures
        matched == pattern_matches(pattern@, c),
{
    let mut buffer = [0u8; 4];
    match Regex::new(pattern) {
        Ok(regex) => Some(regex.is_match(c.encode_utf8(&mut buffer))),
        Err(_) => None,
    }
}

/// The length of the longest prefix of `s` whose characters all belong to
/// `class`.
pub open spec fn run_len(s: Seq<char>, class: CharClass) -> nat
    decreases s.len(),
{
    if s.len() > 0 && class.has(s.first()) {
        1 + run_len(s.drop_first(), class)
    } else {
        0
    }
}

/// The length of the longest suffix of `s` whose characters all belong to
/// `class`.
pub open spec fn run_len_back(s: Seq<char>, class: CharClass) -> nat
    decreases s.len(),
{
    if s.len() > 0 && class.has(s.last()) {
        1 + run_len_back(s.drop_last(), class)
    } else {
        0
    }
}

/// `run_len` is the one `n` such that the first `n` characters of `s`
/// belong to `class` and the character after them, if any, does not.
pub proof fn lemma_run_len_is(s: Seq<char>, class: CharClass, n: int)
    requires
        0 <= n <= s.len(),
        forall|i: int| 0 <= i < n ==> class.has(#[trigger] s[i]),
        n < s.len() ==> !class.has(s[n]),
    ensures
        run_len(s, class) == n,
    decreases n,
{
    if n > 0 {
        let rest = s.drop_first();
        assert forall|i: int| 0 <= i < n - 1 implies class.has(#[trigger] rest[i]) by {
            assert(rest[i] == s[i + 1]);
        }
        lemma_run_len_is(rest, class, n - 1);
    }
}

/// What `run_len` says of `s`: where the run ends and what lies before and
/// behind its end.
pub proof fn lemma_run_len_bounds(s: Seq<char>, class: CharClass)
    ensures
        run_len(s, class) <= s.len(),
        forall|i: int| 0 <= i < run_len(s, class) ==> class.has(#[trigger] s[i]),
        run_len(s, class) < s.len() ==> !class.has(s[run_len(s, class) as int]),
    decreases s.len(),
{
    if s.len() > 0 && class.has(s.first()) {
        let rest = s.drop_first();
        lemma_run_len_bounds(rest, class);
        assert forall|i: int| 0 <= i < run_len(s, class) implies class.has(#[trigger] s[i]) by {
            if i > 0 {
                assert(s[i] == rest[i - 1]);
            }
        }
        if run_len(s, class) < s.len() {
            assert(s[run_len(s, class) as int] == rest[run_len(rest, class) as int]);
        }
    }
}

/// `run_len_back` is the one `n` such that the last `n` characters of `s`
/// belong to `class` and the character before them, if any, does not.
pub proof fn lemma_run_len_back_is(s: Seq<char>, class: CharClass, n: int)
    requires
        0 <= n <= s.len(),
        forall|i: int| s.len() - n <= i < s.len() ==> class.has(#[trigger] s[i]),
        n < s.len() ==> !class.has(s[s.len() - n - 1]),
    ensures
        run_len_back(s, class) == n,
    decreases n,
{
    if n > 0 {
        let rest = s.drop_last();
        assert forall|i: int| rest.len() - (n - 1) <= i < rest.len() implies class.has(
            #[trigger] rest[i],
        ) by {
            assert(rest[i] == s[i]);
        }
        lemma_run_len_back_is(rest, class, n - 1);
    }
}

/// What `run_len_back` says of `s`.
pub proof fn lemma_run_len_back_bounds(s: Seq<char>, class: CharClass)
    ensures
        run_len_back(s, class) <= s.len(),
        forall|i: int|
            s.len() - run_len_back(s, class) <= i < s.len() ==> class.has(#[trigger] s[i]),
        run_len_back(s, class) < s.len() ==> !class.has(
            s[s.len() - run_len_back(s, class) - 1],
        ),
    decreases s.len(),
{
    if s.len() > 0 && class.has(s.last()) {
        let rest = s.drop_last();
        lemma_run_len_back_bounds(rest, class);
        assert forall|i: int| s.len() - run_len_back(s, class) <= i < s.len() implies class.has(
            #[trigger] s[i],
        ) by {
            if i < s.len() - 1 {
                assert(s[i] == rest[i]);
            }
        }
        if run_len_back(s, class) < s.len() {
            assert(s[s.len() - run_len_back(s, class) - 1] == rest[rest.len() - run_len_back(
                rest,
                class,
            ) - 1]);
        }
    }
}

/// `s` without the white space at its two ends.
pub open spec fn trimmed(s: Seq<char>) -> Seq<char> {
    let rest = s.skip(run_len(s, CharClass::Whitespace) as int);
    rest.take(rest.len() - run_len_back(rest, CharClass::Whitespace))
}

/// Whether `s` has white space at neither end. The empty sequence has none.
pub open spec fn is_trimmed(s: Seq<char>) -> bool {
    s.len() > 0 ==> !is_whitespace(s.first()) && !is_whitespace(s.last())
}

/// Where the trimmed part of `s` lies in `s`: white space before it and
/// behind it, and none at its own ends.
pub proof fn lemma_trimmed_bounds(s: Seq<char>) -> (bounds: (int, int))
    ensures
        0 <= bounds.0 <= bounds.1 <= s.len(),
        trimmed(s) == s.subrange(bounds.0, bounds.1),
        forall|i: int| 0 <= i < bounds.0 ==> is_whitespace(#[trigger] s[i]),
        forall|i: int| bounds.1 <= i < s.len() ==> is_whitespace(#[trigger] s[i]),
        is_trimmed(trimmed(s)),
{
    let start = run_len(s, CharClass::Whitespace) as int;
    lemma_run_len_bounds(s, CharClass::Whitespace);
    let rest = s.skip(start);
    let end = s.len() - run_len_back(rest, CharClass::Whitespace);
    lemma_run_len_back_bounds(rest, CharClass::Whitespace);
    assert(rest.take(rest.len() - run_len_back(rest, CharClass::Whitespace)) == s.subrange(
        start,
        end,
    ));
    assert forall|i: int| end <= i < s.len() implies is_whitespace(#[trigger] s[i]) by {
        assert(s[i] == rest[i - start]);
    }
    if start < end {
        assert(s[end - 1] == rest[end - 1 - start]);
    }
    (start, end)
}

/// The trimmed part of `s` is the one part of `s` with white space before
/// it and behind it and none at its own ends.
pub proof fn lemma_trimmed_is(s: Seq<char>, start: int, end: int)
    requires
        0 <= start <= end <= s.len(),
        forall|i: int| 0 <= i < start ==> is_whitespace(#[trigger] s[i]),
        forall|i: int| end <= i < s.len() ==> is_whitespace(#[trigger] s[i]),
        start < end ==> !is_whitespace(s[start]) && !is_whitespace(s[end - 1]),
    ensures
        trimmed(s) == s.subrange(start, end),
{
    if start < end {
        lemma_run_len_is(s, CharClass::Whitespace, start);
        let rest = s.skip(start);
        assert forall|i: int| rest.len() - (s.len() - end) <= i < rest.len() implies is_whitespace(
            #[trigger] rest[i],
        ) by {
            assert(rest[i] == s[i + start]);
        }
        assert(rest[rest.len() - (s.len() - end) - 1] == s[end - 1]);
        lemma_run_len_back_is(rest, CharClass::Whitespace, s.len() - end);
        assert(rest.take(rest.len() - (s.len() - end)) == s.subrange(start, end));
    } else {
        lemma_run_len_is(s, CharClass::Whitespace, s.len() as int);
        let rest = s.skip(s.len() as int);
        assert(rest.len() == 0);
        assert(rest.take(rest.len() - run_len_back(rest, CharClass::Whitespace)) == s.subrange(
            start,
            end,
        ));
    }
}

/// The number that the decimal numeral `s` writes. Leading zeros count for
/// nothing, and the empty numeral writes zero.
pub open spec fn decimal_value(s: Seq<char>) -> nat
    decreases s.len(),
{
    if s.len() == 0 {
        0
    } else {
        decimal_value(s.drop_last()) * 10 + digit_value(s.last())
    }
}

/// A numeral writes at least what any of its prefixes writes.
pub proof fn lemma_decimal_value_prefix(s: Seq<char>, k: int)
    requires
        0 <= k <= s.len(),
    ensures
        decimal_value(s.take(k)) <= decimal_value(s),
    decreases s.len() - k,
{
    if k < s.len() {
        lemma_decimal_value_prefix(s.drop_last(), k);
        assert(s.drop_last().take(k) == s.take(k));
    } else {
        assert(s.take(k) == s);
    }
}

/// The characters of `s`, in order.
pub fn chars_of(s: &str) -> (v: Vec<char>)
    ensures
        v@ == s@,
{
    let mut v: Vec<char> = Vec::new();
    for c in it: s.chars()
        invariant
            v@ == it.history(),
            it.seq() == s@,
    {
        v.push(c);
    }
    v
}

/// Where the run of `class` characters that starts at `from` ends, looking
/// no further than `to`.
pub fn run_end(chars: &Vec<char>, from: usize, to: usize, class: CharClass) -> (end: usize)
    requires
        from <= to <= chars.len(),
    ensures
        from <= end <= to,
        end - from == run_len(chars@.subrange(from as int, to as int), class),
{
    let mut end: usize = from;
    while end < to && class.contains(chars[end])
        invariant
            from <= end <= to <= chars.len(),
            forall|i: int| from <= i < end ==> class.has(#[trigger] chars@[i]),
        decreases to - end,
    {
        end += 1;
    }
    proof {
        lemma_run_len_is(chars@.subrange(from as int, to as int), class, end - from);
    }
    end
}

/// Where the run of `class` characters that ends at `to` starts, looking no
/// further back than `from`.
pub fn run_start(chars: &Vec<char>, from: usize, to: usize, class: CharClass) -> (start: usize)
    requires
        from <= to <= chars.len(),
    ensures
        from <= start <= to,
        to - start == run_len_back(chars@.subrange(from as int, to as int), class),
{
    let mut start: usize = to;
    while start > from && class.contains(chars[start - 1])
        invariant
            from <= start <= to <= chars.len(),
            forall|i: int| start <= i < to ==> class.has(#[trigger] chars@[i]),
        decreases start - from,
    {
        start -= 1;
    }
    proof {
        lemma_run_len_back_is(chars@.subrange(from as int, to as int), class, to - start);
    }
    start
}

/// The bounds of `chars[from..to]` without the white space at its two ends.
pub fn trim_bounds(chars: &Vec<char>, from: usize, to: usize) -> (bounds: (usize, usize))
    requires
        from <= to <= chars.len(),
    ensures
        from <= bounds.0 <= bounds.1 <= to,
        chars@.subrange(bounds.0 as int, bounds.1 as int) == trimmed(
            chars@.subrange(from as int, to as int),
        ),
        is_trimmed(chars@.subrange(bounds.0 as int, bounds.1 as int)),
{
    let start: usize = run_end(chars, from, to, CharClass::Whitespace);
    let end: usize = run_start(chars, start, to, CharClass::Whitespace);
    proof {
        let s = chars@.subrange(from as int, to as int);
        lemma_run_len_bounds(s, CharClass::Whitespace);
        lemma_run_len_back_bounds(
            chars@.subrange(start as int, to as int),
            CharClass::Whitespace,
        );
        assert(s.skip(start - from) == chars@.subrange(start as int, to as int));
        assert(chars@.subrange(start as int, to as int).take(end - start) == chars@.subrange(
            start as int,
            end as int,
        ));
    }
    (start, end)
}

/// The number that the digits `chars[from..to]` write, where it fits 32 bits.
pub fn decimal_u32(chars: &Vec<char>, from: usize, to: usize) -> (value: Option<u32>)
    requires
        from <= to <= chars.len(),
        forall|i: int| from <= i < to ==> is_digit(#[trigger] chars@[i]),
    ensures
        match value {
            Some(v) => v == decimal_value(chars@.subrange(from as int, to as int)),
            None => decimal_value(chars@.subrange(from as int, to as int)) > u32::MAX,
        },
{
    let ghost digits = chars@.subrange(from as int, to as int);
    let mut value: u32 = 0;
    let mut i: usize = from;
    while i < to
        invariant
            from <= i <= to <= chars.len(),
            digits == chars@.subrange(from as int, to as int),
            forall|j: int| from <= j < to ==> is_digit(#[trigger] chars@[j]),
            value == decimal_value(digits.take(i - from)),
        decreases to - i,
    {
        let digit: u32 = chars[i] as u32 - '0' as u32;
        proof {
            let longer = digits.take(i - from + 1);
            assert(longer.drop_last() == digits.take(i - from));
            assert(longer.last() == chars@[i as int]);
            assert(decimal_value(longer) == value * 10 + digit);
            lemma_decimal_value_prefix(digits, i - from + 1);
        }
        let next: Option<u32> = match value.checked_mul(10) {
            Some(tens) => tens.checked_add(digit),
            None => None,
        };
        match next {
            Some(v) => {
                value = v;
            },
            None => {
                return None;
            },
        }
        i += 1;
    }
    proof {
        assert(digits.take(to - from) == digits);
    }
    Some(value)
}

} // verus!
