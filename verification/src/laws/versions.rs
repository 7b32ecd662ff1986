//! Promises on OTP versions.

use vstd::prelude::*;

use crate::laws::text::{
    decimal_is_written_digit_by_digit, has_text, joined_by, numeral, splitting_undoes_joining,
};
use crate::text::{decimal, padded, stands_at};
use crate::versions::{
    available, columns, component, component_at, is_digit, is_number, is_version_char,
    lemma_run_end, lemma_tag_is_found, listed_versions_are_tagged, listing, newest_first, number,
    older, ordering_keeps_the_versions, run_end, same_version, tag_at, tagged_versions_are_listed,
    tags_before, tags_request,
};

verus! {

/// The number at a place of a version; 0 behind its end.
pub open spec fn number_at(numbers: Seq<nat>, i: int) -> nat {
    if 0 <= i < numbers.len() {
        numbers[i]
    } else {
        0
    }
}

/// Whether numbers come before others: the first that differ decide.
pub open spec fn numbers_before(a: Seq<nat>, b: Seq<nat>) -> bool {
    exists|i: int|
        0 <= i && #[trigger] number_at(a, i) < number_at(b, i) && forall|j: int|
            0 <= j < i ==> #[trigger] number_at(a, j) == number_at(b, j)
}

/// Numbers as a version is written: in decimal, with dots between them.
pub open spec fn dotted(numbers: Seq<nat>) -> Seq<char> {
    joined_by(numbers.map_values(|n: nat| decimal(n)), '.')
}

/// Whether each number fits 32 bits, and there is one.
pub open spec fn are_numbers(numbers: Seq<nat>) -> bool {
    numbers.len() > 0 && forall|i: int|
        0 <= i < numbers.len() ==> #[trigger] numbers[i] <= 0xffff_ffff
}

proof fn lemma_decimal(n: nat)
    ensures
        is_number(decimal(n)),
        number(decimal(n)) == n,
    decreases n,
{
    let (t, d) = (n / 10, n % 10);
    decimal_is_written_digit_by_digit(t, d);
    assert(is_digit(numeral(d)));
    if t == 0 {
        assert(n == d);
        reveal_with_fuel(number, 2);
        assert(decimal(n).drop_last() == Seq::<char>::empty());
    } else {
        lemma_decimal(t);
        assert(n == 10 * t + d);
        assert(decimal(n) == decimal(t).push(numeral(d)));
        assert(decimal(n).drop_last() == decimal(t));
    }
}

proof fn lemma_dotted(numbers: Seq<nat>, i: int)
    requires
        are_numbers(numbers),
        0 <= i,
    ensures
        component_at(dotted(numbers), i) == number_at(numbers, i),
{
    let pieces = numbers.map_values(|n: nat| decimal(n));
    assert forall|k: int| 0 <= k < pieces.len() implies !(#[trigger] pieces[k]).contains('.') by {
        lemma_decimal(numbers[k]);
        if pieces[k].contains('.') {
            let j = choose|j: int| 0 <= j < pieces[k].len() && pieces[k][j] == '.';
            assert(is_digit(pieces[k][j]));
        }
    }
    splitting_undoes_joining(pieces, '.');
    if i < numbers.len() {
        let d = decimal(numbers[i]);
        lemma_decimal(numbers[i]);
        assert(pieces[i] == d);
        assert(is_digit(d[0]));
        assert(numbers[i] <= 0xffff_ffff);
    }
}

/// Versions are compared as numbers are, number by number, however many there are.
pub proof fn versions_are_compared_numerically(a: Seq<nat>, b: Seq<nat>)
    requires
        are_numbers(a),
        are_numbers(b),
    ensures
        older(dotted(a), dotted(b)) <==> numbers_before(a, b),
{
    assert forall|i: int| 0 <= i implies component_at(dotted(a), i) == number_at(a, i)
        && #[trigger] component_at(dotted(b), i) == number_at(b, i) by {
        lemma_dotted(a, i);
        lemma_dotted(b, i);
    }
    assert forall|i: int| 0 <= i implies #[trigger] component_at(dotted(a), i) == number_at(
        a,
        i,
    ) by {
        lemma_dotted(a, i);
    }
    if older(dotted(a), dotted(b)) {
        let i = choose|i: int|
            0 <= i && #[trigger] component_at(dotted(a), i) < component_at(dotted(b), i)
                && forall|j: int|
                0 <= j < i ==> #[trigger] component_at(dotted(a), j) == component_at(dotted(b), j);
        assert(number_at(a, i) < number_at(b, i));
        assert forall|j: int| 0 <= j < i implies #[trigger] number_at(a, j) == number_at(b, j) by {
            assert(component_at(dotted(a), j) == component_at(dotted(b), j));
        }
    }
    if numbers_before(a, b) {
        let i = choose|i: int|
            0 <= i && #[trigger] number_at(a, i) < number_at(b, i) && forall|j: int|
                0 <= j < i ==> #[trigger] number_at(a, j) == number_at(b, j);
        assert(component_at(dotted(a), i) < component_at(dotted(b), i));
        assert forall|j: int| 0 <= j < i implies #[trigger] component_at(dotted(a), j)
            == component_at(dotted(b), j) by {
            assert(number_at(a, j) == number_at(b, j));
        }
    }
}

/// Whether a text is a number of zeros.
pub open spec fn is_zeros(s: Seq<char>) -> bool {
    forall|i: int| 0 <= i < s.len() ==> #[trigger] s[i] == '0'
}

/// Whether a text writes a number: in decimal, with zeros before it or not, and a
/// plus sign before those or not.
pub open spec fn writes(s: Seq<char>, plus: bool, zeros: Seq<char>, n: nat) -> bool {
    is_zeros(zeros) && s == (if plus {
        seq!['+']
    } else {
        Seq::empty()
    }) + (zeros + decimal(n))
}

/// Whether a text has something in it that no number has.
pub open spec fn is_no_number(s: Seq<char>) -> bool {
    s.len() == 0 || s == seq!['+'] || exists|i: int|
        0 <= i < s.len() && !('0' <= #[trigger] s[i] <= '9') && !(i == 0 && s[i] == '+')
}

/// Whether a component of a version is worth some number: the one it writes, where
/// that fits 32 bits, and nothing where it does not or where it is no number.
pub open spec fn is_worth(s: Seq<char>, n: nat) -> bool {
    ||| n <= 0xffff_ffff && exists|plus: bool, zeros: Seq<char>| #[trigger] writes(s, plus, zeros, n)
    ||| n == 0 && is_no_number(s)
    ||| n == 0 && exists|plus: bool, zeros: Seq<char>, m: nat|
        m > 0xffff_ffff && #[trigger] writes(s, plus, zeros, m)
}

/// Whether the components of a version are worth some numbers, each its own.
pub open spec fn are_worth(pieces: Seq<Seq<char>>, numbers: Seq<nat>) -> bool {
    pieces.len() > 0 && pieces.len() == numbers.len() && forall|i: int|
        0 <= i < pieces.len() ==> !(#[trigger] pieces[i]).contains('.') && is_worth(
            pieces[i],
            numbers[i],
        )
}

proof fn lemma_zeros(zeros: Seq<char>, d: Seq<char>)
    requires
        is_zeros(zeros),
        is_number(d),
    ensures
        is_number(zeros + d),
        number(zeros + d) == number(d),
    decreases d.len(),
{
    let s = zeros + d;
    assert forall|i: int| 0 <= i < s.len() implies is_digit(#[trigger] s[i]) by {
        if i >= zeros.len() {
            assert(s[i] == d[i - zeros.len()]);
        } else {
            assert(s[i] == zeros[i]);
        }
    }
    assert(s.last() == d.last());
    assert(s.drop_last() == zeros + d.drop_last());
    if d.len() == 1 {
        lemma_only_zeros(zeros);
        assert(zeros + d.drop_last() == zeros);
        assert(number(d.drop_last()) == 0);
    } else {
        assert forall|i: int| 0 <= i < d.drop_last().len() implies is_digit(
            #[trigger] d.drop_last()[i],
        ) by {
            assert(d.drop_last()[i] == d[i]);
        }
        lemma_zeros(zeros, d.drop_last());
    }
}

proof fn lemma_only_zeros(zeros: Seq<char>)
    requires
        is_zeros(zeros),
    ensures
        number(zeros) == 0,
    decreases zeros.len(),
{
    if zeros.len() > 0 {
        assert(zeros[zeros.len() - 1] == '0');
        lemma_only_zeros(zeros.drop_last());
    }
}

proof fn lemma_writes(s: Seq<char>, plus: bool, zeros: Seq<char>, n: nat)
    requires
        writes(s, plus, zeros, n),
    ensures
        component(s) == (if n <= 0xffff_ffff {
            n
        } else {
            0
        }),
{
    let d = zeros + decimal(n);
    lemma_decimal(n);
    lemma_zeros(zeros, decimal(n));
    assert(is_digit(d[0]));
    if plus {
        assert(s[0] == '+');
        assert(s.drop_first() == d);
    } else {
        assert(s == d);
    }
}

proof fn lemma_worth(s: Seq<char>, n: nat)
    requires
        is_worth(s, n),
    ensures
        component(s) == n,
{
    if n <= 0xffff_ffff && exists|plus: bool, zeros: Seq<char>| #[trigger]
        writes(s, plus, zeros, n) {
        let (plus, zeros) = choose|plus: bool, zeros: Seq<char>| #[trigger]
            writes(s, plus, zeros, n);
        lemma_writes(s, plus, zeros, n);
    } else if is_no_number(s) {
        let d = if s.len() > 0 && s[0] == '+' {
            s.drop_first()
        } else {
            s
        };
        if is_number(d) {
            if s.len() > 0 && s != seq!['+'] {
                let i = choose|i: int|
                    0 <= i < s.len() && !('0' <= #[trigger] s[i] <= '9') && !(i == 0 && s[i]
                        == '+');
                if s[0] == '+' {
                    assert(d[i - 1] == s[i]);
                    assert(is_digit(d[i - 1]));
                } else {
                    assert(is_digit(d[i]));
                }
            }
        }
    } else {
        let (plus, zeros, m) = choose|plus: bool, zeros: Seq<char>, m: nat|
            m > 0xffff_ffff && #[trigger] writes(s, plus, zeros, m);
        lemma_writes(s, plus, zeros, m);
    }
}

proof fn lemma_component_at(pieces: Seq<Seq<char>>, numbers: Seq<nat>, i: int)
    requires
        are_worth(pieces, numbers),
        0 <= i,
    ensures
        component_at(joined_by(pieces, '.'), i) == number_at(numbers, i),
{
    splitting_undoes_joining(pieces, '.');
    if i < pieces.len() {
        assert(!pieces[i].contains('.'));
        lemma_worth(pieces[i], numbers[i]);
    }
}

/// Versions are compared as what their components are worth is, one by one,
/// however many there are and whatever stands in them.
pub proof fn components_are_compared_by_their_worth(
    a: Seq<Seq<char>>,
    b: Seq<Seq<char>>,
    x: Seq<nat>,
    y: Seq<nat>,
)
    requires
        are_worth(a, x),
        are_worth(b, y),
    ensures
        older(joined_by(a, '.'), joined_by(b, '.')) <==> numbers_before(x, y),
        same_version(joined_by(a, '.'), joined_by(b, '.')) <==> forall|i: int|
            0 <= i ==> #[trigger] number_at(x, i) == number_at(y, i),
{
    let (s, t) = (joined_by(a, '.'), joined_by(b, '.'));
    assert forall|i: int| 0 <= i implies #[trigger] component_at(s, i) == number_at(x, i) by {
        lemma_component_at(a, x, i);
    }
    assert forall|i: int| 0 <= i implies #[trigger] component_at(t, i) == number_at(y, i) by {
        lemma_component_at(b, y, i);
    }
    if older(s, t) {
        let i = choose|i: int|
            0 <= i && #[trigger] component_at(s, i) < component_at(t, i) && forall|j: int|
                0 <= j < i ==> #[trigger] component_at(s, j) == component_at(t, j);
        assert(number_at(x, i) < number_at(y, i));
        assert forall|j: int| 0 <= j < i implies #[trigger] number_at(x, j) == number_at(y, j) by {
            assert(component_at(s, j) == component_at(t, j));
        }
    }
    if numbers_before(x, y) {
        let i = choose|i: int|
            0 <= i && #[trigger] number_at(x, i) < number_at(y, i) && forall|j: int|
                0 <= j < i ==> #[trigger] number_at(x, j) == number_at(y, j);
        assert(component_at(s, i) < component_at(t, i));
        assert forall|j: int| 0 <= j < i implies #[trigger] component_at(s, j) == component_at(
            t,
            j,
        ) by {
            assert(number_at(x, j) == number_at(y, j));
        }
    }
    if same_version(s, t) {
        assert forall|i: int| 0 <= i implies #[trigger] number_at(x, i) == number_at(y, i) by {
            assert(component_at(s, i) == component_at(t, i));
        }
    }
    if forall|i: int| 0 <= i ==> #[trigger] number_at(x, i) == number_at(y, i) {
        assert forall|i: int| 0 <= i implies #[trigger] component_at(s, i) == component_at(
            t,
            i,
        ) by {
            assert(number_at(x, i) == number_at(y, i));
        }
    }
}

/// Precompiled runtimes exist from 25.3 on: a version counts as older than that
/// where its first number is below 25, or is 25 and the second below 3.
pub proof fn precompiled_runtimes_start_at_25_3(a: Seq<nat>)
    requires
        are_numbers(a),
    ensures
        older(dotted(a), "25.3"@) <==> number_at(a, 0) < 25 || number_at(a, 0) == 25 && number_at(
            a,
            1,
        ) < 3,
{
    let b: Seq<nat> = seq![25, 3];
    reveal_strlit("25.3");
    decimal_is_written_digit_by_digit(2, 5);
    decimal_is_written_digit_by_digit(0, 2);
    decimal_is_written_digit_by_digit(0, 3);
    let pieces = b.map_values(|n: nat| decimal(n));
    assert(pieces.drop_last() == seq![decimal(25)]);
    reveal_with_fuel(joined_by, 3);
    assert(numeral(2) == '2' && numeral(5) == '5' && numeral(3) == '3');
    assert(decimal(25) == seq!['2', '5']);
    assert(dotted(b) == "25.3"@);
    versions_are_compared_numerically(a, b);
    if number_at(a, 0) < 25 {
        assert(number_at(a, 0) < number_at(b, 0));
    } else if number_at(a, 0) == 25 && number_at(a, 1) < 3 {
        assert(number_at(a, 1) < number_at(b, 1));
    }
    if numbers_before(a, b) {
        let i = choose|i: int|
            0 <= i && #[trigger] number_at(a, i) < number_at(b, i) && forall|j: int|
                0 <= j < i ==> #[trigger] number_at(a, j) == number_at(b, j);
        if i > 0 {
            assert(number_at(a, 0) == number_at(b, 0));
        }
        if i > 1 {
            assert(number_at(b, i) == 0);
        }
    }
}

/// Whether a text is a version as release tags have it: digits and dots, with a
/// digit first, a dot somewhere and none last.
pub open spec fn is_tagged_version(v: Seq<char>) -> bool {
    &&& v.len() > 0
    &&& '0' <= v[0] <= '9'
    &&& v.last() != '.'
    &&& exists|i: int| 0 <= i < v.len() && #[trigger] v[i] == '.'
    &&& forall|i: int| 0 <= i < v.len() ==> '0' <= #[trigger] v[i] <= '9' || v[i] == '.'
}

/// Whether a version that is followed by a text ends there.
pub open spec fn ends_a_version(behind: Seq<char>) -> bool {
    behind.len() > 0 ==> !('0' <= behind[0] <= '9') && behind[0] != '.'
}

proof fn lemma_run(a: Seq<char>, v: Seq<char>, b: Seq<char>, k: int)
    requires
        0 <= k <= v.len(),
        forall|i: int| 0 <= i < v.len() ==> '0' <= #[trigger] v[i] <= '9' || v[i] == '.',
        ends_a_version(b),
    ensures
        run_end(a + v + b, a.len() + k) == a.len() + v.len(),
    decreases v.len() - k,
{
    let s = a + v + b;
    if k < v.len() {
        assert(s[a.len() + k] == v[k]);
        lemma_run(a, v, b, k + 1);
    } else if b.len() > 0 {
        assert(s[a.len() + k] == b[0]);
    }
}

/// Wherever `OTP-` and a version stand in the tags, the version is found; it is
/// available where it is not older than 25.3, and then it is shown.
pub proof fn every_tag_is_found(before: Seq<char>, v: Seq<char>, behind: Seq<char>)
    requires
        is_tagged_version(v),
        ends_a_version(behind),
    ensures
        ({
            let tags = before + "OTP-"@ + v + behind;
            &&& tags_before(tags, tags.len() as int).contains(v)
            &&& !older(v, "25.3"@) ==> available(tags).contains(v)
            &&& !older(v, "25.3"@) ==> has_text(listing(available(tags)), "  "@ + v)
        }),
{
    reveal_strlit("OTP-");
    let tags = before + "OTP-"@ + v + behind;
    let p = before.len() as int;
    let front = before + "OTP-"@;
    assert(tags == front + v + behind);
    lemma_run(front, v, behind, 0);
    assert(run_end(tags, p + 4) == p + 4 + v.len());
    assert(tags.subrange(p, p + 4) == "OTP-"@);
    assert(tags.subrange(p + 4, p + 4 + v.len()) == v);
    assert(v.contains('.'));
    assert(tag_at(tags, p) == Some(v));
    lemma_tag_is_found(tags, tags.len() as int, p);
    if !older(v, "25.3"@) {
        tagged_versions_are_listed(tags, p);
        let all = available(tags);
        let k = choose|k: int| 0 <= k < all.len() && all[k] == v;
        every_version_is_shown(all, k);
    }
}

/// What is found is tagged so: it stands behind an `OTP-`, from its first
/// character to its last.
pub proof fn only_tags_are_found(tags: Seq<char>, v: Seq<char>)
    requires
        available(tags).contains(v),
    ensures
        !older(v, "25.3"@),
        is_tagged_version(v),
        has_text(tags, "OTP-"@ + v),
{
    reveal_strlit("OTP-");
    let all = available(tags);
    let i = choose|i: int| 0 <= i < all.len() && all[i] == v;
    listed_versions_are_tagged(tags, i);
    let p = choose|p: int|
        0 <= p && stands_at(tags, "OTP-"@, p) && #[trigger] tag_at(tags, p) == Some(all[i]);
    lemma_run_end(tags, p + 4);
    let e = run_end(tags, p + 4);
    assert forall|k: int| 0 <= k < v.len() implies '0' <= #[trigger] v[k] <= '9' || v[k] == '.' by {
        assert(is_version_char(tags[p + 4 + k]));
    }
    let (a, b) = (tags.take(p), tags.skip(e));
    assert(tags.subrange(p, p + 4) == "OTP-"@);
    assert(tags == a + (tags.subrange(p, p + 4) + tags.subrange(p + 4, e)) + b);
}

proof fn lemma_columns(versions: Seq<Seq<char>>, n: int, k: int)
    requires
        0 <= k < n <= versions.len(),
    ensures
        has_text(columns(versions, n), "  "@ + versions[k]),
    decreases n,
{
    let s = columns(versions, n);
    let prev = columns(versions, n - 1);
    let end = if n % 5 == 0 {
        "\n"@
    } else {
        Seq::empty()
    };
    assert(s == prev + "  "@ + padded(versions[n - 1], 10) + end);
    if k == n - 1 {
        let v = versions[k];
        let p = padded(v, 10);
        assert(p == v + p.skip(v.len() as int));
        assert(s == prev + ("  "@ + v) + (p.skip(v.len() as int) + end));
    } else {
        lemma_columns(versions, n - 1, k);
        let t = "  "@ + versions[k];
        let (a, b) = choose|a: Seq<char>, b: Seq<char>| prev == #[trigger] (a + t + b);
        assert(s == a + t + (b + "  "@ + padded(versions[n - 1], 10) + end));
    }
}

/// Every version that is available is shown.
pub proof fn every_version_is_shown(versions: Seq<Seq<char>>, k: int)
    requires
        0 <= k < versions.len(),
    ensures
        has_text(listing(versions), "  "@ + versions[k]),
{
    lemma_columns(versions, versions.len() as int, k);
    let t = "  "@ + versions[k];
    let c = columns(versions, versions.len() as int);
    let (a, b) = choose|a: Seq<char>, b: Seq<char>| c == #[trigger] (a + t + b);
    let top = "OTP versions available via --otp (newest first):\n\n"@;
    let s = listing(versions);
    let rest = s.skip((top.len() + c.len()) as int);
    assert(s == top + c + rest);
    assert(s == (top + a) + t + (b + rest));
}

/// Versions are shown one behind the other, each in a cell of its own as wide as
/// the others, five to a row, and the last row is ended as well.
pub proof fn rows_hold_five_versions(versions: Seq<Seq<char>>, n: int)
    requires
        0 <= n < versions.len(),
    ensures
        ({
            let cell = seq![' ', ' '] + versions[n] + Seq::new(
                if versions[n].len() < 10 {
                    (10 - versions[n].len()) as nat
                } else {
                    0
                },
                |i: int| ' ',
            );
            let before = columns(versions, n);
            &&& (n + 1) % 5 == 0 ==> columns(versions, n + 1) == before + cell + seq!['\n']
            &&& (n + 1) % 5 != 0 ==> columns(versions, n + 1) == before + cell
        }),
        columns(versions, 0).len() == 0,
        versions.len() % 5 == 0 ==> crate::versions::table(versions) == columns(
            versions,
            versions.len() as int,
        ),
        versions.len() % 5 != 0 ==> crate::versions::table(versions) == columns(
            versions,
            versions.len() as int,
        ) + seq!['\n'],
{
    reveal_strlit("  ");
    reveal_strlit("\n");
    assert("  "@ == seq![' ', ' ']);
    assert("\n"@ == seq!['\n']);
    let none = Seq::<char>::empty();
    let before = columns(versions, n);
    let p = padded(versions[n], 10);
    let all = columns(versions, versions.len() as int);
    assert(all + none == all);
    assert(before + "  "@ + p + none == before + ("  "@ + p));
    assert(before + "  "@ + p + "\n"@ == before + ("  "@ + p) + "\n"@);
    let k: nat = if versions[n].len() < 10 {
        (10 - versions[n].len()) as nat
    } else {
        0
    };
    let spaces = Seq::new(k, |i: int| ' ');
    assert(p == versions[n] + spaces);
    assert("  "@ + p == seq![' ', ' '] + versions[n] + spaces);
}

proof fn lemma_run_in_front(s: Seq<char>, c: char, t: Seq<char>, i: int)
    requires
        0 <= i <= s.len(),
        !is_version_char(c),
    ensures
        run_end(s + seq![c] + t, i) == run_end(s, i),
    decreases s.len() - i,
{
    let w = s + seq![c] + t;
    if i < s.len() {
        assert(w[i] == s[i]);
        lemma_run_in_front(s, c, t, i + 1);
    } else {
        assert(w[i] == c);
    }
}

proof fn lemma_run_behind(s: Seq<char>, t: Seq<char>, i: int)
    requires
        0 <= i <= t.len(),
    ensures
        run_end(s + t, s.len() + i) == s.len() + run_end(t, i),
    decreases t.len() - i,
{
    if i < t.len() {
        assert((s + t)[s.len() + i] == t[i]);
        lemma_run_behind(s, t, i + 1);
    }
}

proof fn lemma_tags_in_front(s: Seq<char>, c: char, t: Seq<char>, p: int)
    requires
        0 <= p <= s.len(),
        !is_version_char(c),
        c != 'O' && c != 'T' && c != 'P' && c != '-',
    ensures
        tag_at(s + seq![c] + t, p) == tag_at(s, p),
{
    reveal_strlit("OTP-");
    let w = s + seq![c] + t;
    let o = "OTP-"@;
    if p + 4 <= s.len() {
        assert(w.subrange(p, p + 4) == s.subrange(p, p + 4));
        lemma_run_in_front(s, c, t, p + 4);
        lemma_run_end(s, p + 4);
        assert(w.subrange(p + 4, run_end(s, p + 4)) == s.subrange(p + 4, run_end(s, p + 4)));
    } else if stands_at(w, o, p) {
        let j = s.len() - p;
        assert(w.subrange(p, p + 4)[j] == c);
        assert(o[j] != c);
    }
}

proof fn lemma_tags_behind(s: Seq<char>, t: Seq<char>, p: int)
    requires
        0 <= p,
    ensures
        tag_at(s + t, s.len() + p) == tag_at(t, p),
{
    reveal_strlit("OTP-");
    let w = s + t;
    let n = s.len() as int;
    if p + 4 <= t.len() {
        assert(w.subrange(n + p, n + p + 4) == t.subrange(p, p + 4));
        lemma_run_behind(s, t, p + 4);
        lemma_run_end(t, p + 4);
        assert(w.subrange(n + p + 4, n + run_end(t, p + 4)) == t.subrange(
            p + 4,
            run_end(t, p + 4),
        ));
    }
}

proof fn lemma_tags_joined(s: Seq<char>, c: char, t: Seq<char>, n: int)
    requires
        0 <= n <= s.len() + 1 + t.len(),
        !is_version_char(c),
        c != 'O' && c != 'T' && c != 'P' && c != '-',
    ensures
        tags_before(s + seq![c] + t, n) == (if n <= s.len() {
            tags_before(s, n)
        } else {
            tags_before(s, s.len() as int) + tags_before(t, n - s.len() - 1)
        }),
    decreases n,
{
    let w = s + seq![c] + t;
    if n > 0 {
        lemma_tags_joined(s, c, t, n - 1);
        if n <= s.len() {
            lemma_tags_in_front(s, c, t, n - 1);
        } else if n == s.len() + 1 {
            lemma_tags_in_front(s, c, t, n - 1);
            reveal_strlit("OTP-");
            assert(tag_at(s, n - 1) is None);
            assert(tags_before(t, 0) == Seq::<Seq<char>>::empty());
        } else {
            let f = s + seq![c];
            lemma_tags_behind(f, t, n - 1 - f.len());
            assert(w == f + t);
        }
    }
}

/// What is found in two texts with a character between them that no tag holds is
/// what is found in the one and then what is found in the other: no version is
/// lost, added, or moved, however many there are.
pub proof fn tags_are_found_one_after_the_other(s: Seq<char>, c: char, t: Seq<char>)
    requires
        !('0' <= c <= '9') && c != '.',
        c != 'O' && c != 'T' && c != 'P' && c != '-',
    ensures
        tags_before(s + seq![c] + t, (s.len() + 1 + t.len()) as int) == tags_before(
            s,
            s.len() as int,
        ) + tags_before(t, t.len() as int),
{
    lemma_tags_joined(s, c, t, (s.len() + 1 + t.len()) as int);
}

/// Putting versions in order keeps how often each is there.
pub proof fn ordering_keeps_each_version(s: Seq<Seq<char>>, v: Seq<char>)
    ensures
        newest_first(s).len() == s.len(),
        newest_first(s).to_multiset().count(v) == s.to_multiset().count(v),
        forall|i: int, j: int|
            0 <= i < j < newest_first(s).len() ==> !older(
                #[trigger] newest_first(s)[i],
                #[trigger] newest_first(s)[j],
            ),
{
    ordering_keeps_the_versions(s);
    crate::versions::newest_come_first(s);
}

/// The release tags are asked for as a hundred at a time, with a token exactly
/// where there is one that is not empty.
pub proof fn tags_are_asked_for_with_the_token(token: Seq<char>)
    ensures
        ({
            let plain = tags_request(None);
            let auth = tags_request(Some(token));
            &&& plain == seq![
                "-fsSL"@,
                "https://api.github.com/repos/erlang/otp/tags?per_page=100"@,
                "-H"@,
                "Accept: application/vnd.github+json"@,
            ]
            &&& token.len() == 0 ==> auth == plain
            &&& token.len() > 0 ==> auth == plain.push("-H"@).push(
                "Authorization: Bearer "@ + token,
            )
        }),
{
    let plain = tags_request(None);
    let bearer = "Authorization: Bearer "@ + token;
    assert(plain + seq!["-H"@, bearer] == plain.push("-H"@).push(bearer));
}

} // verus!
