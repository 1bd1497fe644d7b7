//! Character-level reading of text: classes of characters, trimming,
//! splitting, and unsigned decimal numbers.

use vstd::prelude::*;
use vstd::slice::slice_subrange;

verus! {

/// `String::push` from the standard library appends one character to the
/// end of the string.
pub assume_specification[ String::push ](text: &mut String, ch: char)
    ensures
        final(text)@ == old(text)@.push(ch),
;

/// Whether `c` is white space, as Unicode defines it.
pub open spec fn is_whitespace(c: char) -> bool {
    ||| '\u{9}' <= c <= '\u{D}'
    ||| c == ' '
    ||| c == '\u{85}'
    ||| c == '\u{A0}'
    ||| c == '\u{1680}'
    ||| '\u{2000}' <= c <= '\u{200A}'
    ||| c == '\u{2028}'
    ||| c == '\u{2029}'
    ||| c == '\u{202F}'
    ||| c == '\u{205F}'
    ||| c == '\u{3000}'
}

/// Whether `c` is one of the decimal digits `0` to `9`.
pub open spec fn is_digit(c: char) -> bool {
    '0' <= c <= '9'
}

/// The sets of characters at which text is cut or trimmed.
#[derive(Debug, Clone, Copy, PartialEq, Eq, Structural)]
pub enum CharSet {
    /// White space, as Unicode defines it.
    Whitespace,
    /// The line feed.
    LineFeed,
    /// `[` and `]`.
    Brackets,
    /// What stands between two indices: white space, `[`, `]`, `;`, `,`.
    Separators,
    /// `;`
    Semicolon,
    /// `(`
    OpeningParenthesis,
    /// `)`
    ClosingParenthesis,
    /// `.`
    Point,
    /// `e` and `E`.
    ExponentMark,
}

impl CharSet {
    /// Whether `c` belongs to the set.
    pub open spec fn contains(self, c: char) -> bool {
        match self {
            CharSet::Whitespace => is_whitespace(c),
            CharSet::LineFeed => c == '\n',
            CharSet::Brackets => c == '[' || c == ']',
            CharSet::Separators => is_whitespace(c) || c == '[' || c == ']' || c == ';' || c
                == ',',
            CharSet::Semicolon => c == ';',
            CharSet::OpeningParenthesis => c == '(',
            CharSet::ClosingParenthesis => c == ')',
            CharSet::Point => c == '.',
            CharSet::ExponentMark => c == 'e' || c == 'E',
        }
    }

    /// Tells whether `c` belongs to the set.
    pub fn has(&self, c: char) -> (found: bool)
        ensures
            found == self.contains(c),
    {
        match self {
            CharSet::Whitespace => whitespace(c),
            CharSet::LineFeed => c == '\n',
            CharSet::Brackets => c == '[' || c == ']',
            CharSet::Separators => whitespace(c) || c == '[' || c == ']' || c == ';' || c == ',',
            CharSet::Semicolon => c == ';',
            CharSet::OpeningParenthesis => c == '(',
            CharSet::ClosingParenthesis => c == ')',
            CharSet::Point => c == '.',
            CharSet::ExponentMark => c == 'e' || c == 'E',
        }
    }
}

/// Tells whether `c` is white space.
pub fn whitespace(c: char) -> (white: bool)
    ensures
        white == is_whitespace(c),
{
    ('\u{9}' <= c && c <= '\u{D}') || c == ' ' || c == '\u{85}' || c == '\u{A0}' || c
        == '\u{1680}' || ('\u{2000}' <= c && c <= '\u{200A}') || c == '\u{2028}' || c
        == '\u{2029}' || c == '\u{202F}' || c == '\u{205F}' || c == '\u{3000}'
}

/// The index of the first character of `text` that is in `set`, or the
/// length of `text` where none is.
pub open spec fn first_in(text: Seq<char>, set: CharSet) -> int
    decreases text.len(),
{
    if text.len() == 0 || set.contains(text[0]) {
        0
    } else {
        1 + first_in(text.skip(1), set)
    }
}

/// `text` without the characters of `set` at its start.
pub open spec fn without_leading(text: Seq<char>, set: CharSet) -> Seq<char>
    decreases text.len(),
{
    if text.len() > 0 && set.contains(text[0]) {
        without_leading(text.skip(1), set)
    } else {
        text
    }
}

/// `text` without the characters of `set` at its end.
pub open spec fn without_trailing(text: Seq<char>, set: CharSet) -> Seq<char>
    decreases text.len(),
{
    if text.len() > 0 && set.contains(text.last()) {
        without_trailing(text.drop_last(), set)
    } else {
        text
    }
}

/// `text` without the white space at its start and at its end.
pub open spec fn trimmed(text: Seq<char>) -> Seq<char> {
    without_trailing(without_leading(text, CharSet::Whitespace), CharSet::Whitespace)
}

/// The pieces into which the characters of `set` cut `text`, in order. A
/// cut at the very end of `text` leaves no empty piece behind it.
pub open spec fn pieces(text: Seq<char>, set: CharSet) -> Seq<Seq<char>>
    decreases text.len(),
{
    if text.len() == 0 {
        Seq::empty()
    } else {
        let end = first_in(text, set);
        proof {
            first_in_is_first(text, set);
        }
        if end < text.len() {
            seq![text.take(end)] + pieces(text.skip(end + 1), set)
        } else {
            seq![text]
        }
    }
}

/// `first_in` lies within the text, no character before it is in the set,
/// and the character at it is, unless it is the end of the text.
pub proof fn first_in_is_first(text: Seq<char>, set: CharSet)
    ensures
        0 <= first_in(text, set) <= text.len(),
        forall|k: int| 0 <= k < first_in(text, set) ==> !set.contains(#[trigger] text[k]),
        first_in(text, set) < text.len() ==> set.contains(text[first_in(text, set)]),
    decreases text.len(),
{
    if text.len() == 0 || set.contains(text[0]) {
    } else {
        let rest = text.skip(1);
        first_in_is_first(rest, set);
        assert forall|k: int| 0 <= k < first_in(text, set) implies !set.contains(
            #[trigger] text[k],
        ) by {
            if k > 0 {
                assert(text[k] == rest[k - 1]);
            }
        }
    }
}

/// An index with no character of the set before it, which is the end of the
/// text or holds a character of the set, is what `first_in` gives.
pub proof fn first_in_unique(text: Seq<char>, set: CharSet, at: int)
    requires
        0 <= at <= text.len(),
        forall|k: int| 0 <= k < at ==> !set.contains(#[trigger] text[k]),
        at < text.len() ==> set.contains(text[at]),
    ensures
        first_in(text, set) == at,
    decreases text.len(),
{
    if text.len() == 0 || set.contains(text[0]) {
    } else {
        let rest = text.skip(1);
        assert forall|k: int| 0 <= k < at - 1 implies !set.contains(#[trigger] rest[k]) by {
            assert(rest[k] == text[k + 1]);
        }
        first_in_unique(rest, set, at - 1);
    }
}

/// The first piece of a text that is not empty, and what the rest of it is
/// cut into.
pub proof fn pieces_unfold(text: Seq<char>, set: CharSet)
    requires
        text.len() > 0,
    ensures
        pieces(text, set).len() > 0,
        pieces(text, set)[0] == text.take(first_in(text, set)),
        pieces(text, set).skip(1) == (if first_in(text, set) < text.len() {
            pieces(text.skip(first_in(text, set) + 1), set)
        } else {
            Seq::empty()
        }),
{
    first_in_is_first(text, set);
}

/// Finds the first character of `text` that is in `set`.
pub fn find_first(text: &[char], set: CharSet) -> (at: usize)
    ensures
        at == first_in(text@, set),
        at <= text@.len(),
{
    let mut at: usize = 0;
    while at < text.len() && !set.has(text[at])
        invariant
            at <= text.len(),
            forall|k: int| 0 <= k < at ==> !set.contains(#[trigger] text@[k]),
        decreases text.len() - at,
    {
        at = at + 1;
    }
    proof {
        first_in_unique(text@, set, at as int);
    }
    at
}

/// Takes the characters of `set` off the start of `text`.
pub fn strip_leading(text: &[char], set: CharSet) -> (rest: &[char])
    ensures
        rest@ == without_leading(text@, set),
{
    let mut from: usize = 0;
    assert(text@.skip(0) =~= text@);
    while from < text.len() && set.has(text[from])
        invariant
            from <= text.len(),
            without_leading(text@.skip(from as int), set) == without_leading(text@, set),
        decreases text.len() - from,
    {
        assert(text@.skip(from as int).skip(1) =~= text@.skip(from + 1));
        from = from + 1;
    }
    slice_subrange(text, from, text.len())
}

/// Takes the characters of `set` off the end of `text`.
pub fn strip_trailing(text: &[char], set: CharSet) -> (rest: &[char])
    ensures
        rest@ == without_trailing(text@, set),
{
    let mut to: usize = text.len();
    assert(text@.take(to as int) =~= text@);
    while to > 0 && set.has(text[to - 1])
        invariant
            to <= text.len(),
            without_trailing(text@.take(to as int), set) == without_trailing(text@, set),
        decreases to,
    {
        assert(text@.take(to as int).drop_last() =~= text@.take(to - 1));
        to = to - 1;
    }
    slice_subrange(text, 0, to)
}

/// Takes the white space off both ends of `text`.
pub fn trim(text: &[char]) -> (rest: &[char])
    ensures
        rest@ == trimmed(text@),
{
    strip_trailing(strip_leading(text, CharSet::Whitespace), CharSet::Whitespace)
}

/// Tells whether `text` begins with `prefix`.
pub fn starts_with(text: &[char], prefix: &str) -> (found: bool)
    ensures
        found == prefix@.is_prefix_of(text@),
{
    let length = prefix.unicode_len();
    if length > text.len() {
        return false;
    }
    let mut i: usize = 0;
    while i < length
        invariant
            length == prefix@.len(),
            length <= text.len(),
            i <= length,
            forall|k: int| 0 <= k < i ==> text@[k] == prefix@[k],
        decreases length - i,
    {
        if text[i] != prefix.get_char(i) {
            return false;
        }
        i = i + 1;
    }
    true
}

/// Reads `text` into its characters.
pub fn chars_of(text: &str) -> (chars: Vec<char>)
    ensures
        chars@ == text@,
{
    let mut chars: Vec<char> = Vec::new();
    for c in it: text.chars()
        invariant
            chars@ == it.seq().take(it.index() as int),
    {
        chars.push(c);
    }
    chars
}

/// Makes a string of `chars`.
pub fn string_of(chars: &[char]) -> (text: String)
    ensures
        text@ == chars@,
{
    let mut text = String::new();
    let mut i: usize = 0;
    while i < chars.len()
        invariant
            i <= chars.len(),
            text@ == chars@.take(i as int),
        decreases chars.len() - i,
    {
        text.push(chars[i]);
        i = i + 1;
    }
    text
}

/// The number that the digit `c` stands for.
pub open spec fn digit_value(c: char) -> nat {
    (c as int - '0' as int) as nat
}

/// Whether `text` holds decimal digits only.
pub open spec fn all_digits(text: Seq<char>) -> bool {
    forall|i: int| 0 <= i < text.len() ==> is_digit(#[trigger] text[i])
}

/// The number that `digits` write in base ten, 0 where there is none.
pub open spec fn decimal_value(digits: Seq<char>) -> nat
    decreases digits.len(),
{
    if digits.len() == 0 {
        0
    } else {
        10 * decimal_value(digits.drop_last()) + digit_value(digits.last())
    }
}

/// The number that `text` writes: an optional `+`, then one decimal digit or
/// more, and nothing else. There is none where the number does not fit.
pub open spec fn unsigned_value(text: Seq<char>) -> Option<usize> {
    let digits = if text.len() > 0 && text[0] == '+' {
        text.skip(1)
    } else {
        text
    };
    if digits.len() > 0 && all_digits(digits) && decimal_value(digits) <= usize::MAX {
        Some(decimal_value(digits) as usize)
    } else {
        None
    }
}

/// Tells whether `c` is a decimal digit.
pub fn digit(c: char) -> (found: bool)
    ensures
        found == is_digit(c),
{
    '0' <= c && c <= '9'
}

/// The number that the digit `c` stands for.
pub fn digit_number(c: char) -> (value: u8)
    requires
        is_digit(c),
    ensures
        value == digit_value(c),
        value <= 9,
{
    (c as u8) - 48
}

/// Reads the number that `text` writes.
pub fn parse_unsigned(text: &[char]) -> (number: Option<usize>)
    ensures
        number == unsigned_value(text@),
{
    let digits = if text.len() > 0 && text[0] == '+' {
        slice_subrange(text, 1, text.len())
    } else {
        text
    };
    if digits.len() == 0 {
        return None;
    }
    let mut value: usize = 0;
    let mut fits = true;
    let mut i: usize = 0;
    while i < digits.len()
        invariant
            digits@.len() > 0,
            digits@ == if text@.len() > 0 && text@[0] == '+' {
                text@.skip(1)
            } else {
                text@
            },
            i <= digits.len(),
            all_digits(digits@.take(i as int)),
            fits ==> value == decimal_value(digits@.take(i as int)),
            !fits ==> decimal_value(digits@.take(i as int)) > usize::MAX,
        decreases digits.len() - i,
    {
        let c = digits[i];
        if !digit(c) {
            assert(!is_digit(digits@[i as int]));
            return None;
        }
        let d = digit_number(c) as usize;
        proof {
            assert(digits@.take(i + 1).drop_last() =~= digits@.take(i as int));
            assert forall|k: int| 0 <= k < i + 1 implies is_digit(
                #[trigger] digits@.take(i + 1)[k],
            ) by {
                if k < i {
                    assert(digits@.take(i as int)[k] == digits@[k]);
                }
            }
        }
        if fits && value <= (usize::MAX - d) / 10 {
            value = 10 * value + d;
        } else {
            fits = false;
        }
        i = i + 1;
    }
    assert(digits@.take(i as int) =~= digits@);
    if fits {
        Some(value)
    } else {
        None
    }
}

} // verus!
