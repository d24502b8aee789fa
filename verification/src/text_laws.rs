//! What holds of texts in general.

use vstd::prelude::*;

use crate::text;
use crate::text::Text;

verus! {

proof fn lemma_trimmed_start(s: Text)
    ensures
        ({
            let t = text::trimmed_start(s);
            &&& t.len() <= s.len()
            &&& t == s.skip(s.len() - t.len())
            &&& t.len() > 0 ==> !text::white_space(t[0])
            &&& forall|i: int| 0 <= i < s.len() - t.len() ==> text::white_space(#[trigger] s[i])
        }),
    decreases s.len(),
{
    if s.len() > 0 && text::white_space(s[0]) {
        let rest = s.skip(1);
        lemma_trimmed_start(rest);
        let t = text::trimmed_start(s);
        assert(t =~= s.skip(s.len() - t.len()));
        assert forall|i: int| 0 <= i < s.len() - t.len() implies text::white_space(
            #[trigger] s[i],
        ) by {
            if i > 0 {
                assert(rest[i - 1] == s[i]);
            }
        }
    } else {
        assert(s =~= s.skip(0));
    }
}

proof fn lemma_trimmed_end(s: Text)
    ensures
        ({
            let t = text::trimmed_end(s);
            &&& t.len() <= s.len()
            &&& t == s.take(t.len() as int)
            &&& t.len() > 0 ==> !text::white_space(t.last())
            &&& forall|i: int| t.len() <= i < s.len() ==> text::white_space(#[trigger] s[i])
        }),
    decreases s.len(),
{
    if s.len() > 0 && text::white_space(s.last()) {
        let rest = s.drop_last();
        lemma_trimmed_end(rest);
        let t = text::trimmed_end(s);
        assert(t =~= s.take(t.len() as int));
        assert forall|i: int| t.len() <= i < s.len() implies text::white_space(#[trigger] s[i]) by {
            if i < s.len() - 1 {
                assert(rest[i] == s[i]);
            }
        }
    } else {
        assert(s =~= s.take(s.len() as int));
    }
}

/// A trimmed text has no white space at either end, and is what stands in the
/// text between white space.
pub proof fn law_trimmed_ends(s: Text)
    ensures
        ({
            let t = text::trimmed(s);
            &&& t.len() > 0 ==> !text::white_space(t[0]) && !text::white_space(t.last())
            &&& exists|from: int|
                0 <= from <= from + t.len() <= s.len() && t == #[trigger] s.subrange(
                    from,
                    from + t.len(),
                ) && (forall|i: int| 0 <= i < from ==> text::white_space(#[trigger] s[i])) && (
                forall|i: int|
                    from + t.len() <= i < s.len() ==> text::white_space(#[trigger] s[i]))
        }),
{
    let u = text::trimmed_start(s);
    let t = text::trimmed(s);
    lemma_trimmed_start(s);
    lemma_trimmed_end(u);
    let from = s.len() - u.len();
    assert(t =~= s.subrange(from, from + t.len()));
    assert forall|i: int| from + t.len() <= i < s.len() implies text::white_space(
        #[trigger] s[i],
    ) by {
        assert(u[i - from] == s[i]);
    }
}

/// Trimming takes away what white space stands around a text that neither
/// starts nor ends with it, and nothing else.
pub proof fn law_trimmed_of_spaced(before: Text, t: Text, after: Text)
    requires
        forall|i: int| 0 <= i < before.len() ==> text::white_space(#[trigger] before[i]),
        forall|i: int| 0 <= i < after.len() ==> text::white_space(#[trigger] after[i]),
        t.len() > 0,
        !text::white_space(t[0]),
        !text::white_space(t.last()),
    ensures
        text::trimmed(before + t + after) == t,
{
    let s = before + t + after;
    law_trimmed_ends(s);
    let r = text::trimmed(s);
    let from = choose|from: int|
        0 <= from <= from + r.len() <= s.len() && r == #[trigger] s.subrange(from, from + r.len())
            && (forall|i: int| 0 <= i < from ==> text::white_space(#[trigger] s[i])) && (forall|
            i: int,
        |
            from + r.len() <= i < s.len() ==> text::white_space(#[trigger] s[i]));
    let n = before.len() as int;
    let m = n + t.len();
    assert(s[n] == t[0] && s[m - 1] == t.last());
    assert(from <= n && m <= from + r.len());
    if from < n {
        assert(s[from] == before[from] && r[0] == s[from]);
    }
    if m < from + r.len() {
        assert(s[from + r.len() - 1] == after[from + r.len() - 1 - m]);
        assert(r.last() == s[from + r.len() - 1]);
    }
    assert(r =~= t);
}

/// The white space of ASCII is the space and the five control characters from
/// the tab to the carriage return.
pub proof fn law_white_space(c: char)
    requires
        c <= '\u{7f}',
    ensures
        text::white_space(c) <==> c == ' ' || '\u{9}' <= c <= '\u{d}',
{
}

/// `t` is the word `word`, in capitals or not.
pub open spec fn spells(t: Text, word: Text) -> bool {
    &&& t.len() == word.len()
    &&& forall|i: int|
        0 <= i < t.len() ==> {
            ||| #[trigger] t[i] == word[i]
            ||| 'A' <= t[i] <= 'Z' && word[i] as int == t[i] as int + 32
        }
}

/// The lower case of a text of ASCII is the word without capitals that it
/// spells; such a word is its own lower case.
pub proof fn law_lowercase(t: Text, word: Text)
    requires
        forall|i: int| 0 <= i < t.len() ==> #[trigger] t[i] <= '\u{7f}',
        forall|i: int| 0 <= i < word.len() ==> #[trigger] word[i] <= '\u{7f}',
        forall|i: int| 0 <= i < word.len() ==> !('A' <= #[trigger] word[i] <= 'Z'),
    ensures
        text::lowercase(word) == word,
        text::lowercase(t) == word <==> spells(t, word),
{
    let low = text::lowercase(t);
    assert(text::ascii_text(t) && text::ascii_text(word));
    assert(text::lowercase(word) =~= word);
    if spells(t, word) {
        assert forall|i: int| 0 <= i < t.len() implies low[i] == word[i] by {
            assert(t[i] == t[i]);
            assert(low[i] == text::ascii_lower(t[i]));
        }
        assert(low =~= word);
    }
    if low == word {
        assert forall|i: int| 0 <= i < t.len() implies (#[trigger] t[i] == word[i] || ('A' <= t[i]
            <= 'Z' && word[i] as int == t[i] as int + 32)) by {
            assert(low[i] == text::ascii_lower(t[i]));
        }
    }
}

/// Trimming twice is trimming once.
pub proof fn law_trimmed_twice(s: Text)
    ensures
        text::trimmed(text::trimmed(s)) == text::trimmed(s),
{
    law_trimmed_ends(s);
}

/// A text is blank where all of it is white space.
pub proof fn law_blank(s: Text)
    ensures
        text::blank(s) <==> forall|i: int| 0 <= i < s.len() ==> text::white_space(#[trigger] s[i]),
{
    law_trimmed_ends(s);
    let t = text::trimmed(s);
    if t.len() > 0 {
        let from = choose|from: int|
            0 <= from <= from + t.len() <= s.len() && t == #[trigger] s.subrange(
                from,
                from + t.len(),
            );
        assert(s[from] == t[0]);
    }
}

// ---------------------------------------------------------------------------
// Order
// ---------------------------------------------------------------------------

/// From `i` on, up to which `a` and `b` agree, `a` comes first: it ends there,
/// or has the lesser character.
pub open spec fn less_at(a: Text, b: Text, i: int) -> bool {
    &&& 0 <= i <= a.len()
    &&& i < b.len()
    &&& forall|j: int| 0 <= j < i ==> #[trigger] a[j] == b[j]
    &&& i == a.len() || a[i] < b[i]
}

/// Texts are ordered by the first character in which they differ, and a text
/// comes before what it is the start of.
pub proof fn law_text_order(a: Text, b: Text)
    ensures
        text::text_less(a, b) <==> exists|i: int| #[trigger] less_at(a, b, i),
    decreases a.len(),
{
    if b.len() == 0 {
    } else if a.len() == 0 {
        assert(less_at(a, b, 0));
    } else if a[0] != b[0] {
        if a[0] < b[0] {
            assert(less_at(a, b, 0));
        }
        if exists|i: int| #[trigger] less_at(a, b, i) {
            let i = choose|i: int| #[trigger] less_at(a, b, i);
            if i > 0 {
                assert(a[0] == b[0]);
            }
        }
    } else {
        let x = a.skip(1);
        let y = b.skip(1);
        law_text_order(x, y);
        if text::text_less(x, y) {
            let i = choose|i: int| #[trigger] less_at(x, y, i);
            assert forall|j: int| 0 <= j < i + 1 implies #[trigger] a[j] == b[j] by {
                if j > 0 {
                    assert(x[j - 1] == y[j - 1]);
                }
            }
            assert(less_at(a, b, i + 1));
        }
        if exists|i: int| #[trigger] less_at(a, b, i) {
            let i = choose|i: int| #[trigger] less_at(a, b, i);
            assert(i > 0);
            assert forall|j: int| 0 <= j < i - 1 implies #[trigger] x[j] == y[j] by {
                assert(a[j + 1] == b[j + 1]);
            }
            assert(less_at(x, y, i - 1));
        }
    }
}

// ---------------------------------------------------------------------------
// Numbers
// ---------------------------------------------------------------------------

/// The number that `s` stands for, read digit by digit.
pub open spec fn number_read(s: Text) -> int
    decreases s.len(),
{
    if s.len() == 0 {
        0
    } else {
        10 * number_read(s.drop_last()) + (s.last() as int - '0' as int)
    }
}

/// A number is written in digits, without a needless zero in front, and is read
/// back.
pub proof fn law_number_read_back(n: nat)
    ensures
        number_read(text::decimal(n)) == n,
        text::decimal(n).len() > 0,
        forall|i: int| 0 <= i < text::decimal(n).len() ==> '0' <= #[trigger] text::decimal(n)[i] <= '9',
        text::decimal(n)[0] == '0' ==> n == 0 && text::decimal(n).len() == 1,
    decreases n,
{
    let s = text::decimal(n);
    if n < 10 {
        assert(s.drop_last() =~= Seq::<char>::empty());
        assert(number_read(Seq::<char>::empty()) == 0);
    } else {
        law_number_read_back(n / 10);
        assert(s.drop_last() =~= text::decimal(n / 10));
        assert(s[0] == text::decimal(n / 10)[0]);
    }
}

// ---------------------------------------------------------------------------
// Building
// ---------------------------------------------------------------------------

/// Escaping goes character by character, and puts a backslash in front of
/// backslashes and quotation marks, and of nothing else.
pub proof fn law_escaped(a: Text, b: Text, c: char, quote: char)
    ensures
        text::escaped(a + b, quote) == text::escaped(a, quote) + text::escaped(b, quote),
        text::escaped(Seq::empty(), quote) == Seq::<char>::empty(),
        c == '\\' || c == quote ==> text::escaped(seq![c], quote) == seq!['\\', c],
        c != '\\' && c != quote ==> text::escaped(seq![c], quote) == seq![c],
    decreases a.len(),
{
    assert(seq![c].skip(1) =~= Seq::<char>::empty());
    assert(text::escaped(Seq::<char>::empty(), quote) =~= Seq::<char>::empty());
    assert(seq!['\\', c] + Seq::<char>::empty() =~= seq!['\\', c]);
    assert(seq![c] + Seq::<char>::empty() =~= seq![c]);
    if a.len() == 0 {
        assert(a + b =~= b);
        assert(text::escaped(a, quote) + text::escaped(b, quote) =~= text::escaped(b, quote));
    } else {
        law_escaped(a.skip(1), b, c, quote);
        assert((a + b).skip(1) =~= a.skip(1) + b);
        assert(text::escaped(a + b, quote) =~= text::escaped(a, quote) + text::escaped(b, quote));
    }
}

/// Joined parts stand one after the other, with the separator between each and
/// the next.
pub proof fn law_joined(parts: Seq<Text>, part: Text, separator: Text)
    ensures
        text::joined(Seq::empty(), separator) == Seq::<char>::empty(),
        text::joined(seq![part], separator) == part,
        parts.len() > 0 ==> text::joined(parts.push(part), separator) == text::joined(
            parts,
            separator,
        ) + separator + part,
{
    if parts.len() > 0 {
        assert(parts.push(part).drop_last() =~= parts);
    }
}

/// The first part stands first.
pub(crate) proof fn lemma_joined_first(parts: Seq<Text>, separator: Text)
    requires
        parts.len() > 1,
    ensures
        text::joined(parts, separator) == parts[0] + separator + text::joined(
            parts.skip(1),
            separator,
        ),
    decreases parts.len(),
{
    let head = parts.drop_last();
    let rest = parts.skip(1);
    assert(rest.last() == parts.last());
    if parts.len() == 2 {
        assert(text::joined(head, separator) == parts[0]);
        assert(text::joined(rest, separator) == parts[1]);
    } else {
        lemma_joined_first(head, separator);
        assert(head.skip(1) =~= rest.drop_last());
        let middle = text::joined(rest.drop_last(), separator);
        assert(text::joined(parts, separator) =~= parts[0] + separator + (middle + separator
            + parts.last()));
    }
}

/// The text of a truth value.
pub proof fn law_truth_text()
    ensures
        text::truth_text(true) == "true"@,
        text::truth_text(false) == "false"@,
{
}

/// A vector of strings is seen string by string.
pub proof fn law_texts(v: Seq<String>, s: String)
    ensures
        text::texts(v).len() == v.len(),
        forall|i: int| 0 <= i < v.len() ==> #[trigger] text::texts(v)[i] == v[i]@,
        text::option_text(Some(s)) == Some(s@),
        text::option_text(None) == None::<Text>,
{
}

} // verus!
