//! Promises on texts.

use vstd::prelude::*;

use crate::text::{
    after_prefix, begins_with, comes_before, decimal, find_char, hex, lemma_find_char,
    lemma_split_joined, padded, split, stands_at, strip_back, strip_front, stripped, strips,
    trimmed, whitespace, without_end,
};

verus! {

/// Whether a text holds another somewhere.
pub open spec fn has_text(s: Seq<char>, t: Seq<char>) -> bool {
    exists|a: Seq<char>, b: Seq<char>| s == #[trigger] (a + t + b)
}

/// Of the characters below 128, the six that are white space are so, and no
/// others; above, those that Unicode lists.
pub proof fn white_space_is_that_of_unicode(c: char)
    ensures
        (c as u32) < 128 ==> (whitespace(c) <==> c == ' ' || c == '\t' || c == '\n' || c == '\r' || c
            == '\u{b}' || c == '\u{c}'),
        (c as u32) >= 128 ==> (whitespace(c) <==> c as u32 == 0x85 || c as u32 == 0xa0 || c as u32
            == 0x1680 || 0x2000 <= c as u32 <= 0x200a || c as u32 == 0x2028 || c as u32 == 0x2029
            || c as u32 == 0x202f || c as u32 == 0x205f || c as u32 == 0x3000),
{
}

/// Whether a text is white space throughout.
pub open spec fn is_blank(s: Seq<char>) -> bool {
    forall|i: int| 0 <= i < s.len() ==> whitespace(#[trigger] s[i])
}

/// Whether a text is a run of one character.
pub open spec fn is_run(s: Seq<char>, c: char) -> bool {
    forall|i: int| 0 <= i < s.len() ==> #[trigger] s[i] == c
}

proof fn lemma_strip(a: Seq<char>, core: Seq<char>, b: Seq<char>, what: Option<char>)
    requires
        forall|i: int| 0 <= i < a.len() ==> strips(what, #[trigger] a[i]),
        forall|i: int| 0 <= i < b.len() ==> strips(what, #[trigger] b[i]),
        core.len() > 0 ==> !strips(what, core[0]) && !strips(what, core.last()),
    ensures
        stripped(a + core + b, what) == core,
    decreases a.len() + b.len(),
{
    let s = a + core + b;
    if a.len() > 0 {
        assert(strips(what, a[0]));
        assert(s[0] == a[0]);
        let t = a.drop_first();
        assert(s.drop_first() == t + core + b);
        assert forall|i: int| 0 <= i < t.len() implies strips(what, #[trigger] t[i]) by {
            assert(t[i] == a[i + 1]);
        }
        lemma_strip(t, core, b, what);
    } else if core.len() == 0 && b.len() > 0 {
        assert(strips(what, b[0]));
        assert(s == b);
        let t = b.drop_first();
        assert(s.drop_first() == a + core + t);
        assert forall|i: int| 0 <= i < t.len() implies strips(what, #[trigger] t[i]) by {
            assert(t[i] == b[i + 1]);
        }
        lemma_strip(a, core, t, what);
    } else {
        assert(s == core + b);
        assert(strip_front(s, what) == s);
        lemma_strip_back(core, b, what);
    }
}

proof fn lemma_strip_back(core: Seq<char>, b: Seq<char>, what: Option<char>)
    requires
        forall|i: int| 0 <= i < b.len() ==> strips(what, #[trigger] b[i]),
        core.len() > 0 ==> !strips(what, core.last()),
    ensures
        strip_back(core + b, what) == core,
    decreases b.len(),
{
    let s = core + b;
    if b.len() > 0 {
        assert(strips(what, b[b.len() - 1]));
        assert(s.last() == b.last());
        assert(s.drop_last() == core + b.drop_last());
        lemma_strip_back(core, b.drop_last(), what);
    } else {
        assert(s == core);
    }
}

/// Trimming takes the white space around a text away, all of it and nothing else.
pub proof fn trimming_takes_white_space_away(a: Seq<char>, core: Seq<char>, b: Seq<char>)
    requires
        is_blank(a),
        is_blank(b),
        core.len() > 0 ==> !whitespace(core[0]) && !whitespace(core.last()),
    ensures
        trimmed(a + core + b) == core,
{
    lemma_strip(a, core, b, None);
}

/// Stripping takes the runs of a character around a text away, and nothing else.
pub proof fn stripping_takes_a_character_away(
    a: Seq<char>,
    core: Seq<char>,
    b: Seq<char>,
    c: char,
)
    requires
        is_run(a, c),
        is_run(b, c),
        core.len() > 0 ==> core[0] != c && core.last() != c,
    ensures
        stripped(a + core + b, Some(c)) == core,
{
    lemma_strip(a, core, b, Some(c));
}

/// Texts with a separator between each and the next.
pub open spec fn joined_by(pieces: Seq<Seq<char>>, sep: char) -> Seq<char>
    decreases pieces.len(),
{
    if pieces.len() == 0 {
        Seq::empty()
    } else if pieces.len() == 1 {
        pieces[0]
    } else {
        joined_by(pieces.drop_last(), sep) + seq![sep] + pieces.last()
    }
}

/// Splitting gives back the pieces that were joined, every one of them and in
/// their order.
pub proof fn splitting_undoes_joining(pieces: Seq<Seq<char>>, sep: char)
    requires
        pieces.len() > 0,
        forall|i: int| 0 <= i < pieces.len() ==> !(#[trigger] pieces[i]).contains(sep),
    ensures
        split(joined_by(pieces, sep), sep) == pieces,
    decreases pieces.len(),
{
    let last = pieces.last();
    assert(!pieces[pieces.len() - 1].contains(sep));
    lemma_find_char(last, sep, 0);
    assert(split(last, sep) == seq![last]);
    if pieces.len() == 1 {
        assert(pieces == seq![last]);
    } else {
        let before = pieces.drop_last();
        assert forall|i: int| 0 <= i < before.len() implies !(#[trigger] before[i]).contains(
            sep,
        ) by {
            assert(before[i] == pieces[i]);
        }
        splitting_undoes_joining(before, sep);
        lemma_split_joined(joined_by(before, sep), last, sep);
        assert(before + seq![last] == pieces);
    }
}

/// A character is found where it first stands.
pub proof fn characters_are_found_where_they_first_stand(
    before: Seq<char>,
    c: char,
    behind: Seq<char>,
)
    requires
        !before.contains(c),
    ensures
        find_char(before + seq![c] + behind, c, 0) == Some(before.len() as int),
        find_char(before, c, 0) is None,
{
    let s = before + seq![c] + behind;
    lemma_find_char(s, c, 0);
    lemma_find_char(before, c, 0);
    assert(s[before.len() as int] == c);
    let k = find_char(s, c, 0)->0;
    if k < before.len() {
        assert(before[k] == c);
    }
}

/// A text begins with another where it goes on from it, and only there; what
/// follows is the rest.
pub proof fn prefixes_are_what_comes_first(s: Seq<char>, pat: Seq<char>, rest: Seq<char>)
    ensures
        begins_with(pat + rest, pat),
        after_prefix(pat + rest, pat) == Some(rest),
        begins_with(s, pat) ==> s == pat + s.skip(pat.len() as int),
        !begins_with(s, pat) ==> after_prefix(s, pat) is None,
{
    assert((pat + rest).subrange(0, pat.len() as int) == pat);
    assert((pat + rest).skip(pat.len() as int) == rest);
    if begins_with(s, pat) {
        assert(s == s.subrange(0, pat.len() as int) + s.skip(pat.len() as int));
    }
}

/// What stands at a place of a text is what is there.
pub proof fn what_stands_at_a_place_is_there(a: Seq<char>, t: Seq<char>, b: Seq<char>, i: int)
    ensures
        stands_at(a + t + b, t, a.len() as int),
        0 <= i && stands_at(b, t, i) ==> has_text(b, t),
{
    assert((a + t + b).subrange(a.len() as int, (a.len() + t.len()) as int) == t);
    if 0 <= i && stands_at(b, t, i) {
        let (x, y) = (b.take(i), b.skip(i + t.len()));
        assert(b == x + b.subrange(i, i + t.len()) + y);
        assert(b == x + t + y);
    }
}

/// An ending is taken off as often as it stands there, and then no more.
pub proof fn endings_are_taken_off(s: Seq<char>, pat: Seq<char>)
    requires
        pat.len() > 0,
    ensures
        without_end(s + pat, pat) == without_end(s, pat),
        (forall|t: Seq<char>| #[trigger] (t + pat) != s) ==> without_end(s, pat) == s,
{
    let t = s + pat;
    assert(t.skip(t.len() - pat.len()) == pat);
    assert(t.take(t.len() - pat.len()) == s);
    if forall|t: Seq<char>| #[trigger] (t + pat) != s {
        if pat.len() <= s.len() && s.skip(s.len() - pat.len()) == pat {
            let u = s.take(s.len() - pat.len());
            assert(u + pat == s);
        }
    }
}

/// The character of a digit.
pub open spec fn numeral(d: nat) -> char {
    if d < 10 {
        ('0' as u32 + d) as char
    } else {
        ('a' as u32 + d - 10) as char
    }
}

proof fn lemma_numerals(d: int)
    requires
        0 <= d < 16,
    ensures
        crate::text::digit(d) == seq![numeral(d as nat)],
{
    reveal_strlit("0123456789abcdef");
    assert(crate::text::digit(d).len() == 1);
    assert(crate::text::digit(d)[0] == numeral(d as nat));
}

/// A number in decimal: below ten it is its digit, and a further digit stands
/// behind those of the number of tens.
pub proof fn decimal_is_written_digit_by_digit(n: nat, d: nat)
    requires
        d < 10,
    ensures
        decimal(d) == seq![numeral(d)],
        n > 0 ==> decimal(10 * n + d) == decimal(n).push(numeral(d)),
{
    lemma_numerals(d as int);
    if n > 0 {
        assert((10 * n + d) / 10 == n && (10 * n + d) % 10 == d);
        assert(decimal(10 * n + d) == decimal(n) + seq![numeral(d)]);
    }
}

/// A number in hexadecimal, with as many digits as asked for: the last stands
/// behind those of the number of sixteens.
pub proof fn hexadecimal_is_written_digit_by_digit(n: nat, d: nat, k: nat)
    requires
        d < 16,
    ensures
        hex(n, 0).len() == 0,
        hex(16 * n + d, k + 1) == hex(n, k).push(numeral(d)),
{
    lemma_numerals(d as int);
    assert((16 * n + d) / 16 == n && (16 * n + d) % 16 == d);
    assert(hex(16 * n + d, k + 1) == hex(n, k) + seq![numeral(d)]);
}

/// A padded text is the text with spaces behind it, up to the width and no further.
pub proof fn padding_is_spaces_behind(s: Seq<char>, w: nat)
    ensures
        padded(s, w).len() == (if s.len() < w {
            w
        } else {
            s.len()
        }),
        padded(s, w).take(s.len() as int) == s,
        forall|i: int| s.len() <= i < padded(s, w).len() ==> #[trigger] padded(s, w)[i] == ' ',
{
}

/// Of two texts that part at some place, the one with the lesser character there
/// comes first; a text comes before what goes on from it.
pub proof fn texts_go_by_where_they_part(
    p: Seq<char>,
    a: char,
    b: char,
    x: Seq<char>,
    y: Seq<char>,
)
    ensures
        a != b ==> (comes_before(p + seq![a] + x, p + seq![b] + y) <==> a < b),
        comes_before(p, p + seq![a] + x),
        !comes_before(p + seq![a] + x, p),
    decreases p.len(),
{
    let (s, t) = (p + seq![a] + x, p + seq![b] + y);
    if p.len() > 0 {
        let q = p.drop_first();
        texts_go_by_where_they_part(q, a, b, x, y);
        assert(s.drop_first() == q + seq![a] + x);
        assert(t.drop_first() == q + seq![b] + y);
        assert(s[0] == p[0] && t[0] == p[0]);
    } else {
        assert(s[0] == a && t[0] == b);
        assert(p.len() == 0);
    }
}

} // verus!
