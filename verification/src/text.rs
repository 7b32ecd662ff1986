//! Strings as sequences of characters: the small set of text operations the
//! rest of the crate is written with.

use vstd::prelude::*;

verus! {

/// The characters Unicode counts as white space.
pub open spec fn whitespace(c: char) -> bool {
    ||| '\u{9}' <= c <= '\u{d}'
    ||| c == ' ' || c == '\u{85}' || c == '\u{a0}' || c == '\u{1680}'
    ||| '\u{2000}' <= c <= '\u{200a}'
    ||| c == '\u{2028}' || c == '\u{2029}' || c == '\u{202f}' || c == '\u{205f}' || c == '\u{3000}'
}

pub fn is_whitespace(c: char) -> (r: bool)
    ensures
        r == whitespace(c),
{
    ('\u{9}' <= c && c <= '\u{d}') || c == ' ' || c == '\u{85}' || c == '\u{a0}' || c == '\u{1680}'
        || ('\u{2000}' <= c && c <= '\u{200a}') || c == '\u{2028}' || c == '\u{2029}'
        || c == '\u{202f}' || c == '\u{205f}' || c == '\u{3000}'
}

/// The characters of a string, in order.
pub fn chars(s: &str) -> (v: Vec<char>)
    ensures
        v@ == s@,
{
    let mut v: Vec<char> = Vec::new();
    for c in it: s.chars()
        invariant
            v@ == it.seq().take(it.index()),
            it.seq() == s@,
    {
        v.push(c);
    }
    v
}

/// Whether two strings hold the same characters.
pub fn same(a: &str, b: &str) -> (r: bool)
    ensures
        r == (a@ == b@),
{
    a.to_owned() == b.to_owned()
}

/// The texts a list of strings holds.
pub open spec fn views(v: Seq<String>) -> Seq<Seq<char>> {
    v.map_values(|s: String| s@)
}

/// The text an optional string holds.
pub open spec fn view_of(s: Option<String>) -> Option<Seq<char>> {
    match s {
        Some(t) => Some(t@),
        None => None,
    }
}

/// A result whose error is told in words, by the words.
pub open spec fn told<T>(r: Result<T, String>) -> Result<T, Seq<char>> {
    match r {
        Ok(t) => Ok(t),
        Err(e) => Err(e@),
    }
}

/// The characters from `from` up to, but not including, `to`.
pub fn slice(s: &str, from: usize, to: usize) -> (r: String)
    requires
        from <= to <= s@.len(),
    ensures
        r@ == s@.subrange(from as int, to as int),
{
    s.substring_char(from, to).to_owned()
}

/// Put a text at the end of a list.
pub fn push_text(list: &mut Vec<String>, text: String)
    ensures
        views(final(list)@) == views(old(list)@).push(text@),
{
    list.push(text);
    assert(views(list@) == views(old(list)@).push(text@));
}

/// Whether `c` goes when `what` is stripped: the given character, or any white space.
pub open spec fn strips(what: Option<char>, c: char) -> bool {
    match what {
        Some(q) => c == q,
        None => whitespace(c),
    }
}

/// `s` without the run of such characters it begins with.
pub open spec fn strip_front(s: Seq<char>, what: Option<char>) -> Seq<char>
    decreases s.len(),
{
    if s.len() > 0 && strips(what, s[0]) {
        strip_front(s.drop_first(), what)
    } else {
        s
    }
}

/// `s` without the run of such characters it ends with.
pub open spec fn strip_back(s: Seq<char>, what: Option<char>) -> Seq<char>
    decreases s.len(),
{
    if s.len() > 0 && strips(what, s.last()) {
        strip_back(s.drop_last(), what)
    } else {
        s
    }
}

/// `s` without such characters at either end.
pub open spec fn stripped(s: Seq<char>, what: Option<char>) -> Seq<char> {
    strip_back(strip_front(s, what), what)
}

/// `s` without white space at either end.
pub open spec fn trimmed(s: Seq<char>) -> Seq<char> {
    stripped(s, None)
}

fn strips_char(what: Option<char>, c: char) -> (r: bool)
    ensures
        r == strips(what, c),
{
    match what {
        Some(q) => c == q,
        None => is_whitespace(c),
    }
}

/// `s` without the characters of `what` at either end.
pub fn strip(s: &str, what: Option<char>) -> (r: &str)
    ensures
        r@ == stripped(s@, what),
{
    let v = chars(s);
    let n: usize = v.len();
    let mut a: usize = 0;
    assert(v@.subrange(0, n as int) == v@);
    while a < n && strips_char(what, v[a])
        invariant
            a <= n == v@.len(),
            strip_front(v@, what) == strip_front(v@.subrange(a as int, n as int), what),
        decreases n - a,
    {
        assert(v@.subrange(a as int, n as int).drop_first() == v@.subrange(a + 1, n as int));
        a = a + 1;
    }
    let ghost front = v@.subrange(a as int, n as int);
    let mut b: usize = n;
    while b > a && strips_char(what, v[b - 1])
        invariant
            a <= b <= n == v@.len(),
            front == v@.subrange(a as int, n as int),
            strip_back(front, what) == strip_back(v@.subrange(a as int, b as int), what),
        decreases b,
    {
        assert(v@.subrange(a as int, b as int).drop_last() == v@.subrange(a as int, b - 1));
        b = b - 1;
    }
    s.substring_char(a, b)
}

/// `s` without white space at either end.
pub fn trim(s: &str) -> (r: &str)
    ensures
        r@ == trimmed(s@),
{
    strip(s, None)
}

/// Where `c` first stands at or after `i`.
pub open spec fn find_char(s: Seq<char>, c: char, i: int) -> Option<int>
    decreases s.len() - i,
{
    if i >= s.len() {
        None
    } else if s[i] == c {
        Some(i)
    } else {
        find_char(s, c, i + 1)
    }
}

/// Whether `pat` stands in `s` at `i`.
pub open spec fn stands_at(s: Seq<char>, pat: Seq<char>, i: int) -> bool {
    i + pat.len() <= s.len() && s.subrange(i, i + pat.len()) == pat
}

/// Whether `s` begins with `pat`.
pub open spec fn begins_with(s: Seq<char>, pat: Seq<char>) -> bool {
    stands_at(s, pat, 0)
}

/// An index as a mathematical one.
pub open spec fn as_index(i: Option<usize>) -> Option<int> {
    match i {
        Some(k) => Some(k as int),
        None => None,
    }
}

pub fn position_of_char(v: &Vec<char>, c: char, from: usize) -> (r: Option<usize>)
    requires
        from <= v@.len(),
    ensures
        as_index(r) == find_char(v@, c, from as int),
        r is Some ==> from <= r->0 < v@.len() && v@[r->0 as int] == c,
{
    let mut i: usize = from;
    while i < v.len()
        invariant
            from <= i <= v@.len(),
            find_char(v@, c, from as int) == find_char(v@, c, i as int),
        decreases v@.len() - i,
    {
        if v[i] == c {
            return Some(i);
        }
        i = i + 1;
    }
    None
}

pub fn text_stands_at(v: &Vec<char>, pat: &Vec<char>, i: usize) -> (r: bool)
    requires
        i <= v@.len(),
    ensures
        r == stands_at(v@, pat@, i as int),
{
    let n: usize = v.len();
    if pat.len() > n - i {
        return false;
    }
    let mut k: usize = 0;
    while k < pat.len()
        invariant
            k <= pat@.len(),
            i + pat@.len() <= n == v@.len(),
            forall|j: int| 0 <= j < k ==> v@[i + j] == pat@[j],
        decreases pat@.len() - k,
    {
        if v[i + k] != pat[k] {
            assert(v@.subrange(i as int, i + pat@.len())[k as int] != pat@[k as int]);
            return false;
        }
        k = k + 1;
    }
    assert(v@.subrange(i as int, i + pat@.len()) == pat@);
    true
}

/// Whether `s` begins with `pat`.
pub fn starts_with(s: &str, pat: &str) -> (r: bool)
    ensures
        r == begins_with(s@, pat@),
{
    text_stands_at(&chars(s), &chars(pat), 0)
}

/// `s` without `pat` at its end, however often it stands there.
pub open spec fn without_end(s: Seq<char>, pat: Seq<char>) -> Seq<char>
    decreases s.len(),
{
    if 0 < pat.len() <= s.len() && s.skip(s.len() - pat.len()) == pat {
        without_end(s.take(s.len() - pat.len()), pat)
    } else {
        s
    }
}

pub fn trim_end_matches(s: &str, pat: &str) -> (r: String)
    ensures
        r@ == without_end(s@, pat@),
{
    let v = chars(s);
    let p = chars(pat);
    let k: usize = p.len();
    let mut n: usize = v.len();
    assert(v@.take(n as int) == v@);
    let mut going: bool = true;
    while going
        invariant
            v@ == s@,
            p@ == pat@,
            k == p@.len(),
            n <= v@.len(),
            without_end(s@, pat@) == without_end(v@.take(n as int), pat@),
            !going ==> without_end(v@.take(n as int), pat@) == v@.take(n as int),
        decreases n + (if going { 1int } else { 0int }),
    {
        let ghost t = v@.take(n as int);
        if k == 0 || k > n {
            going = false;
        } else {
            assert(t.skip(n - k) == v@.subrange(n - k, n as int));
            if text_stands_at(&v, &p, n - k) {
                assert(t.take(n - k) == v@.take(n - k));
                n = n - k;
            } else {
                going = false;
            }
        }
    }
    assert(s@.subrange(0, n as int) == v@.take(n as int));
    slice(s, 0, n)
}

/// What follows `pat` where `s` begins with it.
pub open spec fn after_prefix(s: Seq<char>, pat: Seq<char>) -> Option<Seq<char>> {
    if begins_with(s, pat) {
        Some(s.skip(pat.len() as int))
    } else {
        None
    }
}

pub fn strip_prefix(s: &str, pat: &str) -> (r: Option<String>)
    ensures
        view_of(r) == after_prefix(s@, pat@),
{
    let v = chars(s);
    let p = chars(pat);
    if text_stands_at(&v, &p, 0) {
        assert(s@.subrange(p@.len() as int, s@.len() as int) == s@.skip(p@.len() as int));
        Some(slice(s, p.len(), v.len()))
    } else {
        None
    }
}

/// Whether `c` occurs in `s`.
pub fn has_char(s: &str, c: char) -> (r: bool)
    ensures
        r == s@.contains(c),
{
    let v = chars(s);
    proof {
        lemma_find_char(v@, c, 0);
    }
    position_of_char(&v, c, 0).is_some()
}

/// `find_char` finds the first occurrence, if there is one.
pub proof fn lemma_find_char(s: Seq<char>, c: char, i: int)
    requires
        0 <= i,
    ensures
        match find_char(s, c, i) {
            Some(k) => i <= k < s.len() && s[k] == c && forall|j: int| i <= j < k ==> s[j] != c,
            None => forall|j: int| i <= j < s.len() ==> s[j] != c,
        },
    decreases s.len() - i,
{
    if i < s.len() && s[i] != c {
        lemma_find_char(s, c, i + 1);
    }
}

/// The pieces of `s` between the occurrences of `sep`.
pub open spec fn split(s: Seq<char>, sep: char) -> Seq<Seq<char>>
    decreases s.len(),
{
    match find_char(s, sep, 0) {
        Some(k) if 0 <= k < s.len() => seq![s.take(k)] + split(s.skip(k + 1), sep),
        _ => seq![s],
    }
}

/// Splitting is undone piece by piece: a separator between two texts parts
/// their pieces.
pub proof fn lemma_split_joined(a: Seq<char>, b: Seq<char>, sep: char)
    ensures
        split(a + seq![sep] + b, sep) == split(a, sep) + split(b, sep),
    decreases a.len(),
{
    let s = a + seq![sep] + b;
    lemma_find_char(s, sep, 0);
    lemma_find_char(a, sep, 0);
    assert(s[a.len() as int] == sep);
    match find_char(a, sep, 0) {
        Some(k) => {
            assert(s[k] == sep);
            assert(find_char(s, sep, 0) == Some(k)) by {
                let m = find_char(s, sep, 0)->0;
                if m < k {
                    assert(a[m] == sep);
                }
            }
            lemma_split_joined(a.skip(k + 1), b, sep);
            assert(s.take(k) == a.take(k));
            assert(s.skip(k + 1) == a.skip(k + 1) + seq![sep] + b);
            assert(seq![s.take(k)] + (split(a.skip(k + 1), sep) + split(b, sep)) == seq![a.take(k)]
                + split(a.skip(k + 1), sep) + split(b, sep));
        },
        None => {
            let k = a.len() as int;
            assert(find_char(s, sep, 0) == Some(k)) by {
                let m = find_char(s, sep, 0)->0;
                if m < k {
                    assert(a[m] == s[m]);
                }
            }
            assert(s.take(k) == a);
            assert(s.skip(k + 1) == b);
        },
    }
}

pub fn split_on(s: &str, sep: char) -> (r: Vec<String>)
    ensures
        views(r@) == split(s@, sep),
{
    let v = chars(s);
    let n: usize = v.len();
    let mut out: Vec<String> = Vec::new();
    let mut start: usize = 0;
    assert(s@.skip(0) == s@);
    loop
        invariant
            v@ == s@,
            n == v@.len(),
            start <= n,
            split(s@, sep) == views(out@) + split(s@.skip(start as int), sep),
        decreases n - start,
    {
        let ghost rest = s@.skip(start as int);
        let ghost before = out@;
        proof {
            lemma_find_char(v@, sep, start as int);
            lemma_find_char(rest, sep, 0);
        }
        match position_of_char(&v, sep, start) {
            Some(k) => {
                let piece = slice(s, start, k);
                out.push(piece);
                proof {
                    let f = find_char(rest, sep, 0);
                    assert(rest[k - start] == sep);
                    assert(f is Some);
                    assert(f->0 == k - start) by {
                        assert(s@[start + f->0] == sep);
                    }
                    assert(rest.take(k - start) == piece@);
                    assert(rest.skip(k - start + 1) == s@.skip(k + 1));
                    assert(views(out@) == views(before).push(piece@));
                    assert(views(before) + (seq![piece@] + split(s@.skip(k + 1), sep)) == views(
                        out@,
                    ) + split(s@.skip(k + 1), sep));
                }
                start = k + 1;
            },
            None => {
                let piece = slice(s, start, n);
                out.push(piece);
                proof {
                    let f = find_char(rest, sep, 0);
                    if f is Some {
                        assert(s@[start + f->0] == sep);
                    }
                    assert(piece@ == rest);
                    assert(views(out@) == views(before).push(piece@));
                    assert(views(before) + seq![piece@] == views(out@));
                }
                return out;
            },
        }
    }
}

/// One digit, in a base up to sixteen.
pub open spec fn digit(d: int) -> Seq<char> {
    "0123456789abcdef"@.subrange(d, d + 1)
}

fn digit_text(d: u32) -> (r: &'static str)
    requires
        d < 16,
    ensures
        r@ == digit(d as int),
{
    proof {
        reveal_strlit("0123456789abcdef");
    }
    "0123456789abcdef".substring_char(d as usize, d as usize + 1)
}

/// A number in decimal, without leading zeros.
pub open spec fn decimal(n: nat) -> Seq<char>
    decreases n,
{
    if n < 10 {
        digit(n as int)
    } else {
        decimal(n / 10) + digit((n % 10) as int)
    }
}

pub fn decimal_text(n: u64) -> (r: String)
    ensures
        r@ == decimal(n as nat),
    decreases n,
{
    if n < 10 {
        digit_text(n as u32).to_owned()
    } else {
        let mut r = decimal_text(n / 10);
        r.append(digit_text((n % 10) as u32));
        r
    }
}

/// The low `k` hexadecimal digits of a number, zeros in front where it has fewer.
pub open spec fn hex(n: nat, k: nat) -> Seq<char>
    decreases k,
{
    if k == 0 {
        Seq::empty()
    } else {
        hex(n / 16, (k - 1) as nat) + digit((n % 16) as int)
    }
}

/// Being a number of at most `k` hexadecimal digits.
pub open spec fn fits_hex(n: nat, k: nat) -> bool
    decreases k,
{
    if k == 0 {
        n == 0
    } else {
        fits_hex(n / 16, (k - 1) as nat)
    }
}

/// Numbers that are written alike in hexadecimal are the same number.
pub proof fn hex_tells_numbers_apart(n: nat, m: nat, k: nat)
    requires
        fits_hex(n, k),
        fits_hex(m, k),
        hex(n, k) == hex(m, k),
    ensures
        n == m,
    decreases k,
{
    if k > 0 {
        let j = (k - 1) as nat;
        let (a, b) = (hex(n / 16, j), hex(m / 16, j));
        let (c, d) = (digit((n % 16) as int), digit((m % 16) as int));
        reveal_strlit("0123456789abcdef");
        assert((a + c).drop_last() == a && (b + d).drop_last() == b);
        assert((a + c).last() == c[0] && (b + d).last() == d[0]);
        hex_tells_numbers_apart(n / 16, m / 16, j);
    }
}

/// A number in hexadecimal has the digits asked for.
pub proof fn lemma_hex_len(n: nat, k: nat)
    ensures
        hex(n, k).len() == k,
    decreases k,
{
    reveal_strlit("0123456789abcdef");
    if k > 0 {
        lemma_hex_len(n / 16, (k - 1) as nat);
    }
}

pub fn hex_text(n: u32, k: u32) -> (r: String)
    ensures
        r@ == hex(n as nat, k as nat),
    decreases k,
{
    if k == 0 {
        String::new()
    } else {
        let mut r = hex_text(n / 16, k - 1);
        r.append(digit_text(n % 16));
        r
    }
}

/// `s` filled up with spaces to a width of `w`; as it is where it is as wide already.
pub open spec fn padded(s: Seq<char>, w: nat) -> Seq<char> {
    s + Seq::new(if s.len() < w { (w - s.len()) as nat } else { 0 }, |i: int| ' ')
}

pub fn pad(s: &str, w: usize) -> (r: String)
    ensures
        r@ == padded(s@, w as nat),
{
    let n: usize = chars(s).len();
    let mut r = s.to_owned();
    let mut k: usize = n;
    assert(r@ == s@ + Seq::new(0, |i: int| ' '));
    while k < w
        invariant
            n == s@.len(),
            n <= k,
            k <= w || k == n,
            r@ == s@ + Seq::new((k - n) as nat, |i: int| ' '),
        decreases w - k,
    {
        proof {
            reveal_strlit(" ");
            assert(Seq::new((k - n) as nat, |i: int| ' ') + " "@ == Seq::new(
                (k + 1 - n) as nat,
                |i: int| ' ',
            ));
        }
        r.append(" ");
        assert(r@ == s@ + Seq::new((k + 1 - n) as nat, |i: int| ' '));
        k = k + 1;
    }
    r
}

/// The order of texts by their characters, as in a dictionary.
pub open spec fn comes_before(a: Seq<char>, b: Seq<char>) -> bool
    decreases a.len(),
{
    if b.len() == 0 {
        false
    } else if a.len() == 0 {
        true
    } else if a[0] != b[0] {
        a[0] < b[0]
    } else {
        comes_before(a.drop_first(), b.drop_first())
    }
}

/// Texts are in one order: none comes before itself, coming before carries over,
/// and of two texts that differ one comes first.
pub proof fn texts_are_ordered(a: Seq<char>, b: Seq<char>, c: Seq<char>)
    ensures
        !comes_before(a, a),
        comes_before(a, b) ==> !comes_before(b, a),
        comes_before(a, b) && comes_before(b, c) ==> comes_before(a, c),
        a != b ==> comes_before(a, b) || comes_before(b, a),
    decreases a.len() + b.len() + c.len(),
{
    if a.len() > 0 {
        let a2 = a.drop_first();
        let b2 = if b.len() > 0 {
            b.drop_first()
        } else {
            b
        };
        let c2 = if c.len() > 0 {
            c.drop_first()
        } else {
            c
        };
        texts_are_ordered(a2, b2, c2);
        if b.len() > 0 && a[0] == b[0] && a2 == b2 {
            assert(a == seq![a[0]] + a2);
            assert(b == seq![b[0]] + b2);
        }
    } else {
        assert(b.len() == 0 ==> a == b);
    }
}

/// Whether a text comes before another in the order of their characters.
pub fn is_before(a: &str, b: &str) -> (r: bool)
    ensures
        r == comes_before(a@, b@),
{
    let x = chars(a);
    let y = chars(b);
    let mut i: usize = 0;
    assert(x@.skip(0) == x@ && y@.skip(0) == y@);
    while i < x.len() && i < y.len()
        invariant
            i <= x@.len(),
            i <= y@.len(),
            x@ == a@,
            y@ == b@,
            comes_before(x@, y@) == comes_before(x@.skip(i as int), y@.skip(i as int)),
        decreases x@.len() - i,
    {
        if x[i] != y[i] {
            return x[i] < y[i];
        }
        assert(x@.skip(i as int).drop_first() == x@.skip(i + 1));
        assert(y@.skip(i as int).drop_first() == y@.skip(i + 1));
        i = i + 1;
    }
    i < y.len()
}

} // verus!
