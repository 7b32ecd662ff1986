//! OTP versions: finding them in a list of release tags, ordering them, and
//! showing which can be had.

use vstd::prelude::*;

use crate::process::{capture, option_view, running, str_views, Invocation};
use crate::text::{
    chars, lemma_find_char, lemma_split_joined, pad, padded, slice, split, split_on, stands_at,
    text_stands_at, views,
};

verus! {

/// An ASCII digit.
pub open spec fn is_digit(c: char) -> bool {
    '0' <= c <= '9'
}

/// A number written in one or more digits.
pub open spec fn is_number(s: Seq<char>) -> bool {
    s.len() > 0 && forall|i: int| 0 <= i < s.len() ==> is_digit(#[trigger] s[i])
}

/// The number that digits write.
pub open spec fn number(s: Seq<char>) -> nat
    decreases s.len(),
{
    if s.len() == 0 {
        0
    } else {
        10 * number(s.drop_last()) + (s.last() as nat - '0' as nat) as nat
    }
}

/// What a component of a version counts for: its number, in front of which one
/// `+` may stand; nothing where it is not a number that fits 32 bits.
pub open spec fn component(s: Seq<char>) -> nat {
    let d = if s.len() > 0 && s[0] == '+' {
        s.drop_first()
    } else {
        s
    };
    if is_number(d) && number(d) <= u32::MAX {
        number(d)
    } else {
        0
    }
}

/// What a component of a version counts for.
fn component_value(s: &str) -> (n: u32)
    ensures
        n as nat == component(s@),
{
    let v = chars(s);
    let start: usize = if v.len() > 0 && v[0] == '+' {
        1
    } else {
        0
    };
    let ghost d = if s@.len() > 0 && s@[0] == '+' {
        s@.drop_first()
    } else {
        s@
    };
    assert(d == v@.skip(start as int));
    if v.len() == start {
        return 0;
    }
    let mut i: usize = start;
    let mut n: u64 = 0;
    let mut fits: bool = true;
    while i < v.len()
        invariant
            start <= i <= v@.len(),
            start <= 1,
            d == v@.skip(start as int),
            d == (if s@.len() > 0 && s@[0] == '+' {
                s@.drop_first()
            } else {
                s@
            }),
            forall|k: int| 0 <= k < i - start ==> is_digit(#[trigger] d[k]),
            n <= u32::MAX,
            fits ==> n as nat == number(d.take(i - start)),
            !fits ==> number(d.take(i - start)) > u32::MAX,
        decreases v@.len() - i,
    {
        let c = v[i];
        assert(d[i - start] == c);
        if !('0' <= c && c <= '9') {
            assert(!is_digit(d[i - start]));
            return 0;
        }
        assert(d.take(i + 1 - start).drop_last() == d.take(i - start));
        assert(d.take(i + 1 - start).last() == c);
        if fits {
            n = 10 * n + (c as u32 as u64 - '0' as u32 as u64);
            if n > u32::MAX as u64 {
                fits = false;
                n = 0;
            }
        }
        i = i + 1;
    }
    assert(d.take(v@.len() - start) == d);
    if fits {
        n as u32
    } else {
        0
    }
}

/// What the component at `i` of a version counts for; nothing behind the end.
pub open spec fn component_at(v: Seq<char>, i: int) -> nat {
    if 0 <= i < split(v, '.').len() {
        component(split(v, '.')[i])
    } else {
        0
    }
}

/// Whether a version is older than another: the first component that differs
/// decides.
pub open spec fn older(a: Seq<char>, b: Seq<char>) -> bool {
    exists|i: int|
        0 <= i && #[trigger] component_at(a, i) < component_at(b, i) && forall|j: int|
            0 <= j < i ==> #[trigger] component_at(a, j) == component_at(b, j)
}

/// Whether two versions count the same, component by component.
pub open spec fn same_version(a: Seq<char>, b: Seq<char>) -> bool {
    forall|i: int| 0 <= i ==> #[trigger] component_at(a, i) == component_at(b, i)
}

/// What the component at `i` of a version counts for, given its parts.
fn part(v: &str, parts: &Vec<String>, i: usize) -> (n: u32)
    requires
        views(parts@) == split(v@, '.'),
    ensures
        n as nat == component_at(v@, i as int),
{
    if i < parts.len() {
        assert(views(parts@)[i as int] == parts@[i as int]@);
        component_value(parts[i].as_str())
    } else {
        assert(views(parts@).len() == parts@.len());
        0
    }
}

/// Compare dotted version strings numerically.
pub fn cmp_version(a: &str, b: &str) -> (order: std::cmp::Ordering)
    ensures
        match order {
            std::cmp::Ordering::Less => older(a@, b@),
            std::cmp::Ordering::Equal => same_version(a@, b@),
            std::cmp::Ordering::Greater => older(b@, a@),
        },
{
    let pa = split_on(a, '.');
    let pb = split_on(b, '.');
    let n: usize = if pa.len() < pb.len() {
        pb.len()
    } else {
        pa.len()
    };
    let mut i: usize = 0;
    while i < n
        invariant
            i <= n,
            n >= pa@.len(),
            n >= pb@.len(),
            views(pa@) == split(a@, '.'),
            views(pb@) == split(b@, '.'),
            forall|j: int| 0 <= j < i ==> #[trigger] component_at(a@, j) == component_at(b@, j),
        decreases n - i,
    {
        let x = part(a, &pa, i);
        let y = part(b, &pb, i);
        if x < y {
            return std::cmp::Ordering::Less;
        }
        if x > y {
            assert forall|j: int| 0 <= j < i implies #[trigger] component_at(b@, j)
                == component_at(a@, j) by {
                assert(component_at(a@, j) == component_at(b@, j));
            }
            return std::cmp::Ordering::Greater;
        }
        i = i + 1;
    }
    std::cmp::Ordering::Equal
}

/// Versions that differ in a component differ in a first one.
proof fn lemma_first_difference(a: Seq<char>, b: Seq<char>, i: int)
    requires
        0 <= i,
        component_at(a, i) != component_at(b, i),
    ensures
        older(a, b) || older(b, a),
    decreases i,
{
    if forall|j: int| 0 <= j < i ==> #[trigger] component_at(a, j) == component_at(b, j) {
        assert forall|j: int| 0 <= j < i implies #[trigger] component_at(b, j) == component_at(
            a,
            j,
        ) by {
            assert(component_at(a, j) == component_at(b, j));
        }
        assert(component_at(a, i) < component_at(b, i) || component_at(b, i) < component_at(a, i));
    } else {
        let j = choose|j: int| 0 <= j < i && #[trigger] component_at(a, j) != component_at(b, j);
        lemma_first_difference(a, b, j);
    }
}

/// The versions in their order: no version is older than itself, being older
/// carries over, and of two versions one is older or both count the same.
pub proof fn versions_are_ordered(a: Seq<char>, b: Seq<char>, c: Seq<char>)
    ensures
        !older(a, a),
        older(a, b) ==> !older(b, a) && !same_version(a, b),
        older(a, b) && older(b, c) ==> older(a, c),
        older(a, b) && same_version(b, c) ==> older(a, c),
        older(a, b) || older(b, a) || same_version(a, b),
{
    if older(a, b) {
        let i = choose|i: int|
            0 <= i && #[trigger] component_at(a, i) < component_at(b, i) && forall|j: int|
                0 <= j < i ==> #[trigger] component_at(a, j) == component_at(b, j);
        if older(b, a) {
            let k = choose|k: int|
                0 <= k && #[trigger] component_at(b, k) < component_at(a, k) && forall|j: int|
                    0 <= j < k ==> #[trigger] component_at(b, j) == component_at(a, j);
            assert(component_at(a, i) < component_at(b, i));
            assert(component_at(b, k) < component_at(a, k));
            assert(component_at(a, k) == component_at(b, k) || component_at(b, i) == component_at(
                a,
                i,
            ) || i == k);
        }
        if older(b, c) {
            let k = choose|k: int|
                0 <= k && #[trigger] component_at(b, k) < component_at(c, k) && forall|j: int|
                    0 <= j < k ==> #[trigger] component_at(b, j) == component_at(c, j);
            let m = if i < k {
                i
            } else {
                k
            };
            assert(component_at(b, m) <= component_at(c, m));
            assert(component_at(a, m) < component_at(c, m));
            assert forall|j: int| 0 <= j < m implies #[trigger] component_at(a, j) == component_at(
                c,
                j,
            ) by {
                assert(component_at(b, j) == component_at(c, j));
            }
        }
        if same_version(b, c) {
            assert(component_at(b, i) == component_at(c, i));
            assert forall|j: int| 0 <= j < i implies #[trigger] component_at(a, j) == component_at(
                c,
                j,
            ) by {
                assert(component_at(b, j) == component_at(c, j));
            }
        }
    }
    if !same_version(a, b) {
        let i = choose|i: int| 0 <= i && #[trigger] component_at(a, i) != component_at(b, i);
        lemma_first_difference(a, b, i);
    }
}

/// Zeros at the end do not count: `27.2` and `27.2.0` are the same version.
pub proof fn trailing_zeros_do_not_count(v: Seq<char>)
    ensures
        same_version(v + ".0"@, v),
{
    reveal_strlit(".0");
    let zero = seq!['0'];
    assert(v + ".0"@ == v + seq!['.'] + zero);
    lemma_split_joined(v, zero, '.');
    lemma_find_char(zero, '.', 0);
    assert(split(zero, '.') == seq![zero]);
    assert(component(zero) == 0) by {
        reveal_with_fuel(number, 2);
    }
    let (a, b) = (split(v, '.'), split(v + ".0"@, '.'));
    assert(b == a.push(zero));
}

/// Whether a version is older than another.
pub fn is_older(a: &str, b: &str) -> (r: bool)
    ensures
        r == older(a@, b@),
{
    proof {
        versions_are_ordered(a@, b@, b@);
        versions_are_ordered(b@, a@, a@);
    }
    match cmp_version(a, b) {
        std::cmp::Ordering::Less => true,
        _ => false,
    }
}

/// Where a version goes among versions that are ordered newest first: behind
/// those that are not older.
pub open spec fn slot(s: Seq<Seq<char>>, v: Seq<char>) -> int
    decreases s.len(),
{
    if s.len() > 0 && older(s.last(), v) {
        slot(s.drop_last(), v)
    } else {
        s.len() as int
    }
}

/// Versions ordered newest first; those that count the same keep their order.
pub open spec fn newest_first(s: Seq<Seq<char>>) -> Seq<Seq<char>>
    decreases s.len(),
{
    if s.len() == 0 {
        s
    } else {
        let rest = newest_first(s.drop_last());
        rest.insert(slot(rest, s.last()), s.last())
    }
}

proof fn lemma_slot(s: Seq<Seq<char>>, v: Seq<char>)
    ensures
        0 <= slot(s, v) <= s.len(),
        forall|i: int| slot(s, v) <= i < s.len() ==> older(#[trigger] s[i], v),
        slot(s, v) > 0 ==> !older(s[slot(s, v) - 1], v),
    decreases s.len(),
{
    if s.len() > 0 && older(s.last(), v) {
        lemma_slot(s.drop_last(), v);
        assert forall|i: int| slot(s, v) <= i < s.len() implies older(#[trigger] s[i], v) by {
            if i < s.len() - 1 {
                assert(s[i] == s.drop_last()[i]);
            }
        }
    }
}

/// Versions ordered newest first are so: none stands behind an older one.
pub proof fn newest_come_first(s: Seq<Seq<char>>)
    ensures
        forall|i: int, j: int|
            0 <= i < j < newest_first(s).len() ==> !older(
                #[trigger] newest_first(s)[i],
                #[trigger] newest_first(s)[j],
            ),
        newest_first(s).len() == s.len(),
    decreases s.len(),
{
    if s.len() > 0 {
        let rest = newest_first(s.drop_last());
        let v = s.last();
        let p = slot(rest, v);
        newest_come_first(s.drop_last());
        lemma_slot(rest, v);
        let all = newest_first(s);
        assert forall|i: int, j: int| 0 <= i < j < all.len() implies !older(
            #[trigger] all[i],
            #[trigger] all[j],
        ) by {
            if j == p {
                assert(all[i] == rest[i]);
                versions_are_ordered(rest[i], v, rest[p - 1]);
                versions_are_ordered(rest[p - 1], v, v);
                if i < p - 1 {
                    assert(!older(rest[i], rest[p - 1]));
                    versions_are_ordered(rest[i], rest[p - 1], v);
                    lemma_not_older(rest[i], rest[p - 1], v);
                }
            } else if i == p {
                assert(all[j] == rest[j - 1]);
                versions_are_ordered(rest[j - 1], v, v);
            } else {
                let i2 = if i < p {
                    i
                } else {
                    i - 1
                };
                let j2 = if j < p {
                    j
                } else {
                    j - 1
                };
                assert(all[i] == rest[i2] && all[j] == rest[j2]);
            }
        }
    }
}

/// Not being older carries over too.
proof fn lemma_not_older(a: Seq<char>, b: Seq<char>, c: Seq<char>)
    requires
        !older(a, b),
        !older(b, c),
    ensures
        !older(a, c),
{
    versions_are_ordered(a, b, c);
    versions_are_ordered(b, c, a);
    versions_are_ordered(c, b, a);
    if older(a, c) {
        if older(c, b) {
            versions_are_ordered(a, c, b);
        } else {
            versions_are_ordered(a, c, b);
            assert forall|i: int| 0 <= i implies #[trigger] component_at(c, i) == component_at(
                b,
                i,
            ) by {
                assert(component_at(b, i) == component_at(c, i));
            }
        }
    }
}

/// Ordering loses no version and adds none.
pub proof fn ordering_keeps_the_versions(s: Seq<Seq<char>>)
    ensures
        newest_first(s).to_multiset() == s.to_multiset(),
    decreases s.len(),
{
    if s.len() > 0 {
        let rest = newest_first(s.drop_last());
        ordering_keeps_the_versions(s.drop_last());
        lemma_slot(rest, s.last());
        vstd::seq_lib::to_multiset_insert(rest, slot(rest, s.last()), s.last());
        vstd::seq_lib::to_multiset_build(s.drop_last(), s.last());
        assert(s.drop_last().push(s.last()) == s);
    }
}

/// Counting the same as a version.
pub open spec fn counts_as(w: Seq<char>) -> spec_fn(Seq<char>) -> bool {
    |v: Seq<char>| same_version(v, w)
}

proof fn lemma_filter_none(s: Seq<Seq<char>>, p: spec_fn(Seq<char>) -> bool)
    requires
        forall|i: int| 0 <= i < s.len() ==> !p(#[trigger] s[i]),
    ensures
        s.filter(p) == Seq::<Seq<char>>::empty(),
    decreases s.len(),
{
    reveal(Seq::filter);
    if s.len() > 0 {
        assert(!p(s[s.len() - 1]));
        assert forall|i: int| 0 <= i < s.drop_last().len() implies !p(
            #[trigger] s.drop_last()[i],
        ) by {
            assert(s.drop_last()[i] == s[i]);
        }
        lemma_filter_none(s.drop_last(), p);
    }
}

/// Ordering is stable: versions that count the same stay in the order they came in.
pub proof fn ordering_is_stable(s: Seq<Seq<char>>, w: Seq<char>)
    ensures
        newest_first(s).filter(counts_as(w)) == s.filter(counts_as(w)),
    decreases s.len(),
{
    let p = counts_as(w);
    if s.len() > 0 {
        let rest = newest_first(s.drop_last());
        let v = s.last();
        let n = slot(rest, v);
        ordering_is_stable(s.drop_last(), w);
        lemma_slot(rest, v);
        let (a, b) = (rest.take(n), rest.skip(n));
        assert(rest == a + b);
        assert(newest_first(s) == a + seq![v] + b);
        Seq::filter_distributes_over_add(a, b, p);
        Seq::filter_distributes_over_add(a + seq![v], b, p);
        Seq::filter_distributes_over_add(a, seq![v], p);
        assert(s == s.drop_last() + seq![v]);
        Seq::filter_distributes_over_add(s.drop_last(), seq![v], p);
        if p(v) {
            assert forall|i: int| 0 <= i < b.len() implies !p(#[trigger] b[i]) by {
                assert(b[i] == rest[n + i]);
                versions_are_ordered(rest[n + i], v, v);
                if p(b[i]) {
                    assert forall|j: int| 0 <= j implies #[trigger] component_at(b[i], j)
                        == component_at(v, j) by {
                        assert(component_at(v, j) == component_at(w, j));
                    }
                }
            }
            lemma_filter_none(b, p);
            assert(b.filter(p) == Seq::<Seq<char>>::empty());
            assert(a.filter(p) + seq![v].filter(p) + b.filter(p) == a.filter(p) + b.filter(p)
                + seq![v].filter(p));
        } else {
            lemma_filter_none(seq![v], p);
            assert(a.filter(p) + seq![v].filter(p) + b.filter(p) == a.filter(p) + b.filter(p)
                + seq![v].filter(p));
        }
    }
}

/// Order versions newest first, keeping the order of those that count the same.
pub fn sort_newest_first(versions: Vec<String>) -> (sorted: Vec<String>)
    ensures
        views(sorted@) == newest_first(views(versions@)),
{
    let ghost all = views(versions@);
    let mut sorted: Vec<String> = Vec::new();
    let mut i: usize = 0;
    assert(all.take(0) == views(sorted@));
    while i < versions.len()
        invariant
            i <= versions@.len(),
            all == views(versions@),
            views(sorted@) == newest_first(all.take(i as int)),
        decreases versions@.len() - i,
    {
        let v = versions[i].clone();
        let ghost s = views(sorted@);
        let mut p: usize = sorted.len();
        assert(s.take(p as int) == s);
        let mut going: bool = true;
        while going
            invariant
                p <= sorted@.len(),
                s == views(sorted@),
                slot(s, v@) == slot(s.take(p as int), v@),
                !going ==> slot(s.take(p as int), v@) == p,
            decreases p + (if going { 1int } else { 0int }),
        {
            if p == 0 {
                going = false;
            } else if is_older(sorted[p - 1].as_str(), v.as_str()) {
                assert(s.take(p as int).drop_last() == s.take(p - 1));
                p = p - 1;
            } else {
                going = false;
            }
        }
        sorted.insert(p, v);
        proof {
            assert(views(sorted@) == s.insert(p as int, v@));
            assert(all.take(i + 1).drop_last() == all.take(i as int));
            assert(all.take(i + 1).last() == v@);
        }
        i = i + 1;
    }
    assert(all.take(versions@.len() as int) == all);
    sorted
}

/// What a version is made of.
pub open spec fn is_version_char(c: char) -> bool {
    is_digit(c) || c == '.'
}

/// Where the run of such characters that starts at `i` ends.
pub open spec fn run_end(s: Seq<char>, i: int) -> int
    decreases s.len() - i,
{
    if i < s.len() && is_version_char(s[i]) {
        run_end(s, i + 1)
    } else {
        i
    }
}

/// A version worth listing: it starts with a digit, has a minor part and does
/// not break off after a dot. (Tags like `OTP-R16B` are of another age.)
pub open spec fn is_listable(v: Seq<char>) -> bool {
    v.len() > 0 && is_digit(v[0]) && v.contains('.') && v.last() != '.'
}

/// The version of a release tag that stands at `p`.
pub open spec fn tag_at(s: Seq<char>, p: int) -> Option<Seq<char>> {
    let v = s.subrange(p + 4, run_end(s, p + 4));
    if stands_at(s, "OTP-"@, p) && is_listable(v) {
        Some(v)
    } else {
        None
    }
}

/// The versions of the release tags that stand before `n`, in order.
pub open spec fn tags_before(s: Seq<char>, n: int) -> Seq<Seq<char>>
    decreases n,
{
    if n <= 0 {
        Seq::empty()
    } else {
        match tag_at(s, n - 1) {
            Some(v) => tags_before(s, n - 1).push(v),
            None => tags_before(s, n - 1),
        }
    }
}

pub proof fn lemma_run_end(s: Seq<char>, i: int)
    requires
        0 <= i <= s.len(),
    ensures
        i <= run_end(s, i) <= s.len(),
        forall|k: int| i <= k < run_end(s, i) ==> is_version_char(#[trigger] s[k]),
    decreases s.len() - i,
{
    if i < s.len() && is_version_char(s[i]) {
        lemma_run_end(s, i + 1);
    }
}

proof fn lemma_no_tags_between(s: Seq<char>, a: int, b: int)
    requires
        0 <= a <= b,
        forall|p: int| a <= p < b ==> #[trigger] tag_at(s, p) is None,
    ensures
        tags_before(s, b) == tags_before(s, a),
    decreases b - a,
{
    if a < b {
        assert(tag_at(s, b - 1) is None);
        lemma_no_tags_between(s, a, b - 1);
    }
}

/// A tag and the version behind it hold no other tag.
proof fn lemma_tag_holds_no_tag(s: Seq<char>, i: int)
    requires
        0 <= i,
        stands_at(s, "OTP-"@, i),
    ensures
        forall|p: int| i < p < run_end(s, i + 4) ==> #[trigger] tag_at(s, p) is None,
        i + 4 <= run_end(s, i + 4) <= s.len(),
{
    reveal_strlit("OTP-");
    let t = "OTP-"@;
    lemma_run_end(s, i + 4);
    let w = s.subrange(i, i + 4);
    assert(w[0] == s[i] && w[1] == s[i + 1] && w[2] == s[i + 2] && w[3] == s[i + 3]);
    assert(t[0] == 'O' && t[1] == 'T' && t[2] == 'P' && t[3] == '-');
    assert forall|p: int| i < p < run_end(s, i + 4) implies #[trigger] tag_at(s, p) is None by {
        if stands_at(s, t, p) {
            assert(s.subrange(p, p + 4)[0] == s[p]);
            assert(s[p] == 'O');
            if p >= i + 4 {
                assert(is_version_char(s[p]));
            }
        }
    }
}

/// Scan a blob for `OTP-<major>.<minor>[...]` tag names.
pub fn extract_otp_versions(text: &str) -> (versions: Vec<String>)
    ensures
        views(versions@) == tags_before(text@, text@.len() as int),
{
    let v = chars(text);
    let n: usize = v.len();
    let needle = chars("OTP-");
    let mut out: Vec<String> = Vec::new();
    let mut i: usize = 0;
    assert(views(out@) == tags_before(v@, 0));
    proof {
        reveal_strlit("OTP-");
    }
    while n - i > 4
        invariant
            i <= n == v@.len(),
            v@ == text@,
            needle@ == "OTP-"@,
            needle@.len() == 4,
            views(out@) == tags_before(v@, i as int),
        decreases n - i,
    {
        if text_stands_at(&v, &needle, i) {
            let start: usize = i + 4;
            let mut j: usize = start;
            let mut dotted: bool = false;
            while j < n && (('0' <= v[j] && v[j] <= '9') || v[j] == '.')
                invariant
                    start <= j <= n == v@.len(),
                    run_end(v@, start as int) == run_end(v@, j as int),
                    dotted == v@.subrange(start as int, j as int).contains('.'),
                decreases n - j,
            {
                proof {
                    let w = v@.subrange(start as int, j as int);
                    let w2 = v@.subrange(start as int, j + 1);
                    assert(w2 == w.push(v@[j as int]));
                    if w.contains('.') {
                        let k = choose|k: int| 0 <= k < w.len() && w[k] == '.';
                        assert(w2[k] == '.');
                    }
                    if v@[j as int] == '.' {
                        assert(w2[w.len() as int] == '.');
                    }
                    if w2.contains('.') && v@[j as int] != '.' {
                        let k = choose|k: int| 0 <= k < w2.len() && w2[k] == '.';
                        assert(w[k] == '.');
                    }
                }
                if v[j] == '.' {
                    dotted = true;
                }
                j = j + 1;
            }
            let ghost before = out@;
            let ghost w = v@.subrange(start as int, j as int);
            if j > start && '0' <= v[start] && v[start] <= '9' && dotted && v[j - 1] != '.' {
                assert(is_listable(w));
                out.push(slice(text, start, j));
                assert(views(out@) == views(before).push(w));
            } else {
                assert(!is_listable(w));
            }
            proof {
                lemma_tag_holds_no_tag(v@, i as int);
                assert(tags_before(v@, i + 1) == views(out@));
                lemma_no_tags_between(v@, i + 1, j as int);
            }
            i = j;
        } else {
            assert(tag_at(v@, i as int) is None);
            i = i + 1;
        }
    }
    proof {
        assert forall|p: int| i <= p < n implies #[trigger] tag_at(v@, p) is None by {
            if stands_at(v@, "OTP-"@, p) {
                assert(p == n - 4);
            }
        }
        lemma_no_tags_between(v@, i as int, n as int);
    }
    out
}

/// A list without the items that equal the one right before them.
pub open spec fn deduped(s: Seq<Seq<char>>) -> Seq<Seq<char>>
    decreases s.len(),
{
    if s.len() < 2 {
        s
    } else if s.last() == s[s.len() - 2] {
        deduped(s.drop_last())
    } else {
        deduped(s.drop_last()).push(s.last())
    }
}

/// Not older than the first version that precompiled runtimes exist for.
pub open spec fn is_precompiled() -> spec_fn(Seq<char>) -> bool {
    |v: Seq<char>| !older(v, "25.3"@)
}

/// The versions that can be had, of those a list of release tags names.
pub open spec fn available(tags: Seq<char>) -> Seq<Seq<char>> {
    deduped(newest_first(tags_before(tags, tags.len() as int))).filter(is_precompiled())
}

fn dedup(versions: &Vec<String>) -> (r: Vec<String>)
    ensures
        views(r@) == deduped(views(versions@)),
{
    let ghost all = views(versions@);
    let mut r: Vec<String> = Vec::new();
    let mut i: usize = 0;
    assert(views(r@) == deduped(all.take(0)));
    while i < versions.len()
        invariant
            i <= versions@.len(),
            all == views(versions@),
            views(r@) == deduped(all.take(i as int)),
        decreases versions@.len() - i,
    {
        let ghost before = r@;
        let ghost t = all.take(i + 1);
        assert(t.drop_last() == all.take(i as int));
        if i == 0 || versions[i] != versions[i - 1] {
            r.push(versions[i].clone());
            assert(views(r@) == views(before).push(all[i as int]));
            assert(i == 0 ==> deduped(t) == views(r@)) by {
                if i == 0 {
                    assert(views(before) == Seq::<Seq<char>>::empty());
                    assert(t == views(r@));
                }
            }
        }
        i = i + 1;
    }
    assert(all.take(versions@.len() as int) == all);
    r
}

/// The versions that can be had, of those a list of release tags names: newest
/// first, none twice in a row, none older than 25.3.
pub fn available_versions(tags: &str) -> (r: Vec<String>)
    ensures
        views(r@) == available(tags@),
{
    let versions = dedup(&sort_newest_first(extract_otp_versions(tags)));
    let ghost all = views(versions@);
    let mut r: Vec<String> = Vec::new();
    let mut i: usize = 0;
    proof {
        reveal(Seq::filter);
        assert(views(r@) == all.take(0).filter(is_precompiled()));
    }
    while i < versions.len()
        invariant
            i <= versions@.len(),
            all == views(versions@),
            views(r@) == all.take(i as int).filter(is_precompiled()),
        decreases versions@.len() - i,
    {
        let ghost before = r@;
        proof {
            reveal(Seq::filter);
            assert(all.take(i + 1).drop_last() == all.take(i as int));
        }
        if !is_older(versions[i].as_str(), "25.3") {
            r.push(versions[i].clone());
            assert(views(r@) == views(before).push(all[i as int]));
        }
        i = i + 1;
    }
    assert(all.take(versions@.len() as int) == all);
    r
}

/// Asking for the erlang/otp release tags, with a token where there is one.
pub open spec fn tags_request(token: Option<Seq<char>>) -> Seq<Seq<char>> {
    let plain = seq![
        "-fsSL"@,
        "https://api.github.com/repos/erlang/otp/tags?per_page=100"@,
        "-H"@,
        "Accept: application/vnd.github+json"@,
    ];
    match token {
        Some(t) if t.len() > 0 => plain + seq!["-H"@, "Authorization: Bearer "@ + t],
        _ => plain,
    }
}

/// Ask for the erlang/otp release tags. A CI or user token, where one is set,
/// avoids unauthenticated rate limits.
pub fn tags_query(token: Option<&str>) -> (query: Invocation)
    ensures
        query@ == running("curl"@, tags_request(option_view(token)), None),
{
    let mut args: Vec<&str> = vec![
        "-fsSL",
        "https://api.github.com/repos/erlang/otp/tags?per_page=100",
        "-H",
        "Accept: application/vnd.github+json",
    ];
    let mut auth = "Authorization: Bearer ".to_owned();
    if let Some(t) = token {
        auth.append(t);
        if !t.is_empty() {
            args.push("-H");
            args.push(auth.as_str());
        }
    }
    assert(str_views(args@) == tags_request(option_view(token)));
    capture("curl", args)
}

/// The first `n` versions in columns of ten characters, five to a row.
pub open spec fn columns(versions: Seq<Seq<char>>, n: int) -> Seq<char>
    decreases n,
{
    if n <= 0 {
        Seq::empty()
    } else {
        columns(versions, n - 1) + "  "@ + padded(versions[n - 1], 10) + (if n % 5 == 0 {
            "\n"@
        } else {
            Seq::empty()
        })
    }
}

/// All versions in rows, the last row ended.
pub open spec fn table(versions: Seq<Seq<char>>) -> Seq<char> {
    columns(versions, versions.len() as int) + (if versions.len() % 5 != 0 {
        "\n"@
    } else {
        Seq::empty()
    })
}

/// The list of versions as it is shown.
pub open spec fn listing(versions: Seq<Seq<char>>) -> Seq<char> {
    "OTP versions available via --otp (newest first):\n\n"@ + table(versions)
        + "\n  precompiled runtimes: https://github.com/erlef/otp_builds  (macOS builds are universal)\n"@
        + "  usage: panini build --otp <version> [--target <t>]\n"@
}

fn version_table(versions: &Vec<String>) -> (r: String)
    ensures
        r@ == table(views(versions@)),
{
    let ghost all = views(versions@);
    let mut r = String::new();
    let mut i: usize = 0;
    while i < versions.len()
        invariant
            i <= versions@.len(),
            all == views(versions@),
            r@ == columns(all, i as int),
        decreases versions@.len() - i,
    {
        r.append("  ");
        r.append(pad(versions[i].as_str(), 10).as_str());
        i = i + 1;
        if i % 5 == 0 {
            r.append("\n");
        }
        assert(r@ == columns(all, i as int));
    }
    if versions.len() % 5 != 0 {
        r.append("\n");
    }
    assert(r@ == table(all));
    r
}

/// List OTP versions that can be `--otp`'d, given the text that names the
/// erlang/otp release tags. Precompiled builds exist for OTP 25.3+; older tags
/// are hidden.
pub fn list_versions(tags: &str) -> (shown: String)
    ensures
        shown@ == listing(available(tags@)),
{
    let mut shown = "OTP versions available via --otp (newest first):\n\n".to_owned();
    shown.append(version_table(&available_versions(tags)).as_str());
    shown.append(
        "\n  precompiled runtimes: https://github.com/erlef/otp_builds  (macOS builds are universal)\n",
    );
    shown.append("  usage: panini build --otp <version> [--target <t>]\n");
    shown
}

/// Every version listed stands behind an `OTP-` in the tags and is not older than 25.3.
pub proof fn listed_versions_are_tagged(tags: Seq<char>, i: int)
    requires
        0 <= i < available(tags).len(),
    ensures
        !older(available(tags)[i], "25.3"@),
        is_listable(available(tags)[i]),
        exists|p: int|
            0 <= p && stands_at(tags, "OTP-"@, p) && #[trigger] tag_at(tags, p) == Some(
                available(tags)[i],
            ),
{
    let found = tags_before(tags, tags.len() as int);
    let sorted = newest_first(found);
    let single = deduped(sorted);
    let v = available(tags)[i];
    single.lemma_filter_pred(is_precompiled(), i);
    lemma_filter_member(single, is_precompiled(), v);
    lemma_deduped_members(sorted, v);
    ordering_keeps_the_versions(found);
    broadcast use vstd::seq_lib::group_to_multiset_ensures;
    assert(sorted.to_multiset().count(v) > 0);
    assert(found.contains(v));
    lemma_tags_before(tags, tags.len() as int, v);
}

/// Every version that is tagged and not older than 25.3 is listed.
pub proof fn tagged_versions_are_listed(tags: Seq<char>, p: int)
    requires
        0 <= p < tags.len(),
        tag_at(tags, p) is Some,
        !older(tag_at(tags, p)->0, "25.3"@),
    ensures
        available(tags).contains(tag_at(tags, p)->0),
{
    let v = tag_at(tags, p)->0;
    let found = tags_before(tags, tags.len() as int);
    let sorted = newest_first(found);
    let single = deduped(sorted);
    lemma_tag_is_found(tags, tags.len() as int, p);
    ordering_keeps_the_versions(found);
    broadcast use vstd::seq_lib::group_to_multiset_ensures;
    assert(found.to_multiset().count(v) > 0);
    assert(sorted.contains(v));
    lemma_deduped_members(sorted, v);
    let k = choose|k: int| 0 <= k < single.len() && single[k] == v;
    single.lemma_filter_contains(is_precompiled(), k);
}

/// The versions are listed newest first: none stands behind an older one.
pub proof fn listing_is_newest_first(tags: Seq<char>, i: int, j: int)
    requires
        0 <= i < j < available(tags).len(),
    ensures
        !older(available(tags)[i], available(tags)[j]),
{
    let sorted = newest_first(tags_before(tags, tags.len() as int));
    newest_come_first(tags_before(tags, tags.len() as int));
    lemma_deduped_order(sorted);
    lemma_filter_order(deduped(sorted), is_precompiled());
}

proof fn lemma_filter_member(s: Seq<Seq<char>>, p: spec_fn(Seq<char>) -> bool, v: Seq<char>)
    requires
        s.filter(p).contains(v),
    ensures
        s.contains(v),
    decreases s.len(),
{
    reveal(Seq::filter);
    if s.len() > 0 {
        let k = choose|k: int| 0 <= k < s.filter(p).len() && s.filter(p)[k] == v;
        if s.last() == v {
            assert(s[s.len() - 1] == v);
        } else {
            assert(s.drop_last().filter(p)[k] == v);
            lemma_filter_member(s.drop_last(), p, v);
            let m = choose|m: int| 0 <= m < s.drop_last().len() && s.drop_last()[m] == v;
            assert(s[m] == v);
        }
    }
}

/// No item stands before one it is older than.
pub open spec fn in_order(s: Seq<Seq<char>>) -> bool {
    forall|i: int, j: int| 0 <= i < j < s.len() ==> !older(#[trigger] s[i], #[trigger] s[j])
}

proof fn lemma_deduped_members(s: Seq<Seq<char>>, v: Seq<char>)
    ensures
        deduped(s).contains(v) <==> s.contains(v),
    decreases s.len(),
{
    if s.len() >= 2 {
        let t = s.drop_last();
        lemma_deduped_members(t, v);
        if t.contains(v) {
            let k = choose|k: int| 0 <= k < t.len() && t[k] == v;
            assert(s[k] == v);
        }
        if s.contains(v) {
            let k = choose|k: int| 0 <= k < s.len() && s[k] == v;
            if k < s.len() - 1 {
                assert(t[k] == v);
            } else {
                assert(s.last() == s[s.len() - 2] ==> t[s.len() - 2] == v);
            }
        }
        let d = deduped(t);
        if s.last() != s[s.len() - 2] {
            assert(deduped(s)[d.len() as int] == s.last());
            assert(s[s.len() - 1] == s.last());
            if d.contains(v) {
                let k = choose|k: int| 0 <= k < d.len() && d[k] == v;
                assert(deduped(s)[k] == v);
            }
            if deduped(s).contains(v) {
                let k = choose|k: int| 0 <= k < deduped(s).len() && deduped(s)[k] == v;
                if k < d.len() {
                    assert(d[k] == v);
                }
            }
        }
    }
}

proof fn lemma_deduped_order(s: Seq<Seq<char>>)
    requires
        in_order(s),
    ensures
        in_order(deduped(s)),
    decreases s.len(),
{
    if s.len() >= 2 {
        let t = s.drop_last();
        assert forall|i: int, j: int| 0 <= i < j < t.len() implies !older(
            #[trigger] t[i],
            #[trigger] t[j],
        ) by {
            assert(t[i] == s[i] && t[j] == s[j]);
        }
        lemma_deduped_order(t);
        if s.last() != s[s.len() - 2] {
            let d = deduped(t);
            let all = deduped(s);
            assert forall|i: int, j: int| 0 <= i < j < all.len() implies !older(
                #[trigger] all[i],
                #[trigger] all[j],
            ) by {
                assert(all[i] == d[i]);
                if j < d.len() {
                    assert(all[j] == d[j]);
                } else {
                    lemma_deduped_members(t, d[i]);
                    assert(d.contains(d[i]));
                    let k = choose|k: int| 0 <= k < t.len() && t[k] == d[i];
                    assert(!older(s[k], s[s.len() - 1]));
                }
            }
        }
    }
}

proof fn lemma_filter_order(s: Seq<Seq<char>>, p: spec_fn(Seq<char>) -> bool)
    requires
        in_order(s),
    ensures
        in_order(s.filter(p)),
    decreases s.len(),
{
    reveal(Seq::filter);
    if s.len() > 0 {
        let t = s.drop_last();
        assert forall|i: int, j: int| 0 <= i < j < t.len() implies !older(
            #[trigger] t[i],
            #[trigger] t[j],
        ) by {
            assert(t[i] == s[i] && t[j] == s[j]);
        }
        lemma_filter_order(t, p);
        let d = t.filter(p);
        let all = s.filter(p);
        assert forall|i: int, j: int| 0 <= i < j < all.len() implies !older(
            #[trigger] all[i],
            #[trigger] all[j],
        ) by {
            assert(all[i] == d[i]);
            if j < d.len() {
                assert(all[j] == d[j]);
            } else {
                assert(d.contains(d[i]));
                lemma_filter_member(t, p, d[i]);
                let k = choose|k: int| 0 <= k < t.len() && t[k] == d[i];
                assert(!older(s[k], s[s.len() - 1]));
            }
        }
    }
}

proof fn lemma_tags_before(s: Seq<char>, n: int, v: Seq<char>)
    requires
        tags_before(s, n).contains(v),
    ensures
        exists|p: int| 0 <= p < n && #[trigger] tag_at(s, p) == Some(v),
    decreases n,
{
    if n > 0 {
        let k = choose|k: int| 0 <= k < tags_before(s, n).len() && tags_before(s, n)[k] == v;
        if tag_at(s, n - 1) != Some(v) {
            assert(tags_before(s, n - 1)[k] == v);
            lemma_tags_before(s, n - 1, v);
        }
    }
}

pub proof fn lemma_tag_is_found(s: Seq<char>, n: int, p: int)
    requires
        0 <= p < n,
        tag_at(s, p) is Some,
    ensures
        tags_before(s, n).contains(tag_at(s, p)->0),
    decreases n,
{
    let v = tag_at(s, p)->0;
    if p == n - 1 {
        assert(tags_before(s, n)[tags_before(s, n - 1).len() as int] == v);
    } else {
        lemma_tag_is_found(s, n - 1, p);
        let t = tags_before(s, n - 1);
        let k = choose|k: int| 0 <= k < t.len() && t[k] == v;
        assert(tags_before(s, n)[k] == v);
    }
}

} // verus!
