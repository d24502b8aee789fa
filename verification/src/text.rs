//! Text as sequences of characters.
//!
//! Contracts speak of a `String` or a `&str` through its view, a `Seq<char>`.
//! This module states what the character classes and the standard library's
//! text functions mean on such sequences, and holds the few text functions
//! that the rest of the library shares.

use vstd::prelude::*;
use vstd::string::*;

verus! {

/// A text, as contracts see it.
pub type Text = Seq<char>;

// ---------------------------------------------------------------------------
// Character classes
// ---------------------------------------------------------------------------

/// The characters with the Unicode property `White_Space`.
pub open spec fn white_space(c: char) -> bool {
    ||| '\u{9}' <= c <= '\u{d}'
    ||| c == ' '
    ||| c == '\u{85}'
    ||| c == '\u{a0}'
    ||| c == '\u{1680}'
    ||| '\u{2000}' <= c <= '\u{200a}'
    ||| c == '\u{2028}'
    ||| c == '\u{2029}'
    ||| c == '\u{202f}'
    ||| c == '\u{205f}'
    ||| c == '\u{3000}'
}

/// An ASCII character.
pub open spec fn ascii(c: char) -> bool {
    c <= '\u{7f}'
}

/// The ASCII letters and digits.
pub open spec fn ascii_alphanumeric(c: char) -> bool {
    ||| 'a' <= c <= 'z'
    ||| 'A' <= c <= 'Z'
    ||| '0' <= c <= '9'
}

/// Whether a character beyond ASCII, and no white space, is a letter or a
/// number by the Unicode tables: what `char::is_alphanumeric` returns for it.
pub uninterp spec fn unicode_alphanumeric(c: char) -> bool;

/// A letter or a number.
pub open spec fn alphanumeric(c: char) -> bool {
    if ascii(c) {
        ascii_alphanumeric(c)
    } else {
        !white_space(c) && unicode_alphanumeric(c)
    }
}

/// `char::is_whitespace`: true of exactly the characters with the property
/// `White_Space`.
pub assume_specification[ char::is_whitespace ](c: char) -> (r: bool)
    ensures
        r == white_space(c),
;

/// `char::is_alphanumeric`: within ASCII the letters and digits; never white
/// space; for any other character the answer of the Unicode tables, of which
/// only the name is known here.
pub assume_specification[ char::is_alphanumeric ](c: char) -> (r: bool)
    ensures
        r == (if ascii(c) {
            ascii_alphanumeric(c)
        } else {
            !white_space(c) && unicode_alphanumeric(c)
        }),
;

// ---------------------------------------------------------------------------
// Trimming and lower case
// ---------------------------------------------------------------------------

/// `s` without its leading white space.
pub open spec fn trimmed_start(s: Text) -> Text
    decreases s.len(),
{
    if s.len() > 0 && white_space(s[0]) {
        trimmed_start(s.skip(1))
    } else {
        s
    }
}

/// `s` without its trailing white space.
pub open spec fn trimmed_end(s: Text) -> Text
    decreases s.len(),
{
    if s.len() > 0 && white_space(s.last()) {
        trimmed_end(s.drop_last())
    } else {
        s
    }
}

/// `s` without leading and trailing white space.
pub open spec fn trimmed(s: Text) -> Text {
    trimmed_end(trimmed_start(s))
}

/// Nothing but white space.
pub open spec fn blank(s: Text) -> bool {
    trimmed(s).len() == 0
}

/// `str::trim`: the text without leading and trailing white space.
pub assume_specification[ str::trim ](s: &str) -> (r: &str)
    ensures
        r@ == trimmed(s@),
;

/// A text of ASCII characters only.
pub open spec fn ascii_text(s: Text) -> bool {
    forall|i: int| 0 <= i < s.len() ==> ascii(#[trigger] s[i])
}

/// The lower case of an ASCII letter; any other character itself.
pub open spec fn ascii_lower(c: char) -> char {
    if 'A' <= c <= 'Z' {
        ((c as u32) + 32) as char
    } else {
        c
    }
}

/// The lower case of a text with characters beyond ASCII, by the Unicode
/// tables: what `str::to_lowercase` returns for it.
pub uninterp spec fn unicode_lowercase(s: Text) -> Text;

/// The text in lower case.
pub open spec fn lowercase(s: Text) -> Text {
    if ascii_text(s) {
        s.map_values(|c: char| ascii_lower(c))
    } else {
        unicode_lowercase(s)
    }
}

/// `str::to_lowercase`: an ASCII text character by character; any other text
/// by the Unicode tables, of whose answer only the name is known here.
pub assume_specification[ str::to_lowercase ](s: &str) -> (r: std::string::String)
    ensures
        r@ == (if ascii_text(s@) {
            s@.map_values(|c: char| ascii_lower(c))
        } else {
            unicode_lowercase(s@)
        }),
;

// ---------------------------------------------------------------------------
// Comparing and building
// ---------------------------------------------------------------------------

/// Whether two texts are the same.
pub(crate) fn text_eq(a: &str, b: &str) -> (r: bool)
    ensures
        r == (a@ == b@),
{
    a.to_string() == b.to_string()
}

/// The order of texts: by the first character in which they differ, and a
/// proper prefix before the longer text.
pub open spec fn text_less(a: Text, b: Text) -> bool
    decreases a.len(),
{
    if b.len() == 0 {
        false
    } else if a.len() == 0 {
        true
    } else if a[0] != b[0] {
        a[0] < b[0]
    } else {
        text_less(a.skip(1), b.skip(1))
    }
}

/// Whether one text comes before another.
pub(crate) fn text_lt(a: &str, b: &str) -> (r: bool)
    ensures
        r == text_less(a@, b@),
{
    let x = characters(a);
    let y = characters(b);
    let mut i: usize = 0;
    assert(x@.skip(0) =~= x@ && y@.skip(0) =~= y@);
    while i < x.len() && i < y.len() && x[i] == y[i]
        invariant
            i <= x@.len(),
            i <= y@.len(),
            x@ == a@,
            y@ == b@,
            text_less(a@, b@) == text_less(x@.skip(i as int), y@.skip(i as int)),
        decreases x@.len() - i,
    {
        proof {
            assert(x@.skip(i as int).skip(1) =~= x@.skip(i + 1));
            assert(y@.skip(i as int).skip(1) =~= y@.skip(i + 1));
        }
        i = i + 1;
    }
    i < y.len() && (i >= x.len() || x[i] < y[i])
}

/// `String::push`: appends one character.
pub assume_specification[ std::string::String::push ](s: &mut std::string::String, c: char)
    ensures
        final(s)@ == old(s)@.push(c),
;

/// The characters of `s` in a vector.
pub fn characters(s: &str) -> (r: Vec<char>)
    ensures
        r@ == s@,
{
    let mut out: Vec<char> = Vec::new();
    for c in it: s.chars()
        invariant
            out@ == s@.take(it.index()),
            it.seq() == s@,
    {
        out.push(c);
    }
    out
}

/// The text of the characters from index `from` up to `to`.
pub fn text_of(chars: &Vec<char>, from: usize, to: usize) -> (r: String)
    requires
        from <= to <= chars@.len(),
    ensures
        r@ == chars@.subrange(from as int, to as int),
{
    let mut out = String::new();
    let mut i: usize = from;
    while i < to
        invariant
            from <= i <= to <= chars@.len(),
            out@ == chars@.subrange(from as int, i as int),
        decreases to - i,
    {
        out.push(chars[i]);
        i = i + 1;
    }
    out
}

/// The decimal digit of `d`, for `d` below ten.
pub open spec fn digit(d: nat) -> char {
    (('0' as u32) + d) as char
}

/// The decimal notation of `n`.
pub open spec fn decimal(n: nat) -> Text
    decreases n,
{
    if n < 10 {
        seq![digit(n)]
    } else {
        decimal(n / 10).push(digit(n % 10))
    }
}

/// The decimal notation of `n`.
pub fn decimal_text(n: u128) -> (r: String)
    ensures
        r@ == decimal(n as nat),
    decreases n,
{
    let mut out = if n < 10 { String::new() } else { decimal_text(n / 10) };
    let d: u8 = (n % 10) as u8;
    out.push((48u8 + d) as char);
    out
}

/// `true` or `false`.
pub open spec fn truth_text(b: bool) -> Text {
    if b {
        "true"@
    } else {
        "false"@
    }
}

/// `s` with a backslash before each backslash and before each `quote`.
pub open spec fn escaped(s: Text, quote: char) -> Text
    decreases s.len(),
{
    if s.len() == 0 {
        Seq::empty()
    } else {
        let head = if s[0] == '\\' || s[0] == quote {
            seq!['\\', s[0]]
        } else {
            seq![s[0]]
        };
        head + escaped(s.skip(1), quote)
    }
}

/// The view of an optional text.
pub open spec fn option_text(s: Option<String>) -> Option<Text> {
    match s {
        Some(s) => Some(s@),
        None => None,
    }
}

/// The views of a vector of strings.
pub open spec fn texts(v: Seq<String>) -> Seq<Text> {
    v.map_values(|s: String| s@)
}

/// `parts` one after the other, with `separator` between neighbours.
pub open spec fn joined(parts: Seq<Text>, separator: Text) -> Text
    decreases parts.len(),
{
    if parts.len() == 0 {
        Seq::empty()
    } else if parts.len() == 1 {
        parts[0]
    } else {
        joined(parts.drop_last(), separator) + separator + parts.last()
    }
}

} // verus!
