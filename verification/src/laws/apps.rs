//! Promises on which OTP applications are bundled.

use vstd::prelude::*;

use crate::apps::{
    applications, ascending, bare_name, begins_blank_before, dirs_of, ends_blank_after, first_key,
    is_key_at, is_needed, is_not_empty, is_quoted, lib_dirs, lists_needed, names_in,
    needed_apps_are_included, needed_list, newest_dir, newest_is_newest, newest_of,
    only_needed_apps_are_included,
};
use crate::laws::text::{
    is_blank, joined_by, splitting_undoes_joining, stripping_takes_a_character_away,
    trimming_takes_white_space_away,
};
use crate::listing::EntryView;
use crate::text::{
    comes_before, find_char, lemma_find_char, split, stands_at, stripped, texts_are_ordered,
    whitespace,
};
use crate::versions::older;

verus! {

/// A name as it may stand in a list: with white space around it, and in quotes or
/// not.
pub struct Item {
    pub before: Seq<char>,
    pub quoted: bool,
    pub name: Seq<char>,
    pub behind: Seq<char>,
}

impl Item {
    /// Whether the name is one, with no character in it that a list is made with,
    /// and nothing but white space is around it.
    pub open spec fn is_plain(self) -> bool {
        &&& self.name.len() > 0
        &&& forall|i: int|
            0 <= i < self.name.len() ==> {
                let c = #[trigger] self.name[i];
                c != ',' && c != '[' && c != ']' && c != '\'' && !whitespace(c)
            }
        &&& is_blank(self.before)
        &&& is_blank(self.behind)
    }

    /// How it is written.
    pub open spec fn text(self) -> Seq<char> {
        let name = if self.quoted {
            seq!['\''] + self.name + seq!['\'']
        } else {
            self.name
        };
        self.before + name + self.behind
    }
}

/// How each of some names is written.
pub open spec fn item_texts(items: Seq<Item>) -> Seq<Seq<char>> {
    items.map_values(|i: Item| i.text())
}

/// The names themselves.
pub open spec fn item_names(items: Seq<Item>) -> Seq<Seq<char>> {
    items.map_values(|i: Item| i.name)
}

proof fn lemma_item(item: Item)
    requires
        item.is_plain(),
    ensures
        bare_name(item.text()) == item.name,
        !item.text().contains(','),
        !item.text().contains(']'),
        !item.text().contains('['),
{
    let n = item.name;
    let core = if item.quoted {
        seq!['\''] + n + seq!['\'']
    } else {
        n
    };
    assert(n[0] != '\'' && n[n.len() - 1] != '\'');
    assert(!whitespace('\''));
    assert(!whitespace(n[0]) && !whitespace(n[n.len() - 1]));
    trimming_takes_white_space_away(item.before, core, item.behind);
    let none = Seq::<char>::empty();
    if item.quoted {
        stripping_takes_a_character_away(seq!['\''], n, seq!['\''], '\'');
    } else {
        stripping_takes_a_character_away(none, n, none, '\'');
        assert(none + n + none == n);
    }
    assert(stripped(core, Some('\'')) == n);
    trimming_takes_white_space_away(none, n, none);
    assert(none + n + none == n);
    let t = item.text();
    assert forall|i: int| 0 <= i < t.len() implies #[trigger] t[i] != ',' && t[i] != ']' && t[i]
        != '[' by {
        let b = item.before.len() as int;
        if i < b {
            assert(whitespace(item.before[i]));
        } else if i < b + core.len() {
            assert(t[i] == core[i - b]);
            if item.quoted {
                if 0 < i - b < core.len() - 1 {
                    assert(core[i - b] == n[i - b - 1]);
                }
            } else {
                assert(core[i - b] == n[i - b]);
            }
        } else {
            assert(t[i] == item.behind[i - b - core.len()]);
            assert(whitespace(item.behind[i - b - core.len()]));
        }
    }
}

proof fn lemma_filter_keeps_all(s: Seq<Seq<char>>)
    requires
        forall|i: int| 0 <= i < s.len() ==> (#[trigger] s[i]).len() > 0,
    ensures
        s.filter(is_not_empty()) == s,
    decreases s.len(),
{
    reveal(Seq::filter);
    if s.len() > 0 {
        let t = s.drop_last();
        assert forall|i: int| 0 <= i < t.len() implies (#[trigger] t[i]).len() > 0 by {
            assert(t[i] == s[i]);
        }
        lemma_filter_keeps_all(t);
        assert(s[s.len() - 1].len() > 0);
        assert(t.push(s.last()) == s);
    }
}

/// The names in a list with commas between them are all read, in their order and
/// however many there are.
pub proof fn every_name_in_a_list_is_read(items: Seq<Item>)
    requires
        forall|i: int| 0 <= i < items.len() ==> (#[trigger] items[i]).is_plain(),
    ensures
        names_in(joined_by(item_texts(items), ',')) == item_names(items),
        !joined_by(item_texts(items), ',').contains(']'),
{
    let pieces = item_texts(items);
    assert forall|i: int| 0 <= i < pieces.len() implies !(#[trigger] pieces[i]).contains(',')
        && !pieces[i].contains(']') by {
        lemma_item(items[i]);
    }
    lemma_joined_is_without(pieces, ',', ']');
    if items.len() == 0 {
        brackets_without_names_give_none(Seq::empty());
        assert(item_names(items) == Seq::<Seq<char>>::empty());
    } else {
        lemma_names(items);
    }
}

/// White space alone in a list gives no name.
pub proof fn brackets_without_names_give_none(blank: Seq<char>)
    requires
        is_blank(blank),
    ensures
        names_in(blank) == Seq::<Seq<char>>::empty(),
{
    let none = Seq::<char>::empty();
    assert(blank + none + none == blank);
    assert(none + none + none == none);
    trimming_takes_white_space_away(blank, none, none);
    trimming_takes_white_space_away(none, none, none);
    stripping_takes_a_character_away(none, none, none, '\'');
    lemma_find_char(blank, ',', 0);
    if blank.contains(',') {
        let k = choose|k: int| 0 <= k < blank.len() && blank[k] == ',';
        assert(whitespace(blank[k]));
    }
    assert(split(blank, ',') == seq![blank]);
    let names = split(blank, ',').map_values(|p: Seq<char>| bare_name(p));
    assert(names == seq![none]);
    reveal(Seq::filter);
    assert(names.drop_last() == Seq::<Seq<char>>::empty());
    assert(names.drop_last().filter(is_not_empty()) == Seq::<Seq<char>>::empty());
}

proof fn lemma_names(items: Seq<Item>)
    requires
        items.len() > 0,
        forall|i: int| 0 <= i < items.len() ==> (#[trigger] items[i]).is_plain(),
    ensures
        names_in(joined_by(item_texts(items), ',')) == item_names(items),
{
    let pieces = item_texts(items);
    assert forall|i: int| 0 <= i < pieces.len() implies !(#[trigger] pieces[i]).contains(',') by {
        lemma_item(items[i]);
    }
    splitting_undoes_joining(pieces, ',');
    let names = pieces.map_values(|p: Seq<char>| bare_name(p));
    assert forall|i: int| 0 <= i < names.len() implies #[trigger] names[i] == item_names(items)[i]
        && names[i].len() > 0 by {
        lemma_item(items[i]);
        assert(pieces[i] == items[i].text());
    }
    assert(names == item_names(items));
    lemma_filter_keeps_all(names);
}

proof fn lemma_joined_is_without(pieces: Seq<Seq<char>>, sep: char, c: char)
    requires
        sep != c,
        forall|i: int| 0 <= i < pieces.len() ==> !(#[trigger] pieces[i]).contains(c),
    ensures
        !joined_by(pieces, sep).contains(c),
    decreases pieces.len(),
{
    if pieces.len() > 0 {
        let before = pieces.drop_last();
        assert forall|i: int| 0 <= i < before.len() implies !(#[trigger] before[i]).contains(c) by {
            assert(before[i] == pieces[i]);
        }
        lemma_joined_is_without(before, sep, c);
        assert(!pieces[pieces.len() - 1].contains(c));
        let (a, b) = (joined_by(before, sep), pieces.last());
        let s = joined_by(pieces, sep);
        if pieces.len() == 1 {
            assert(s == pieces[0]);
        } else {
            assert(s == a + seq![sep] + b);
            if s.contains(c) {
                let k = choose|k: int| 0 <= k < s.len() && s[k] == c;
                if k < a.len() {
                    assert(a[k] == c);
                } else if k > a.len() {
                    assert(b[k - a.len() - 1] == c);
                }
            }
        }
    }
}

/// Whether the word of the key, where it stands in a text, has a character of
/// another word right before it or right behind.
pub open spec fn is_part_of_a_word(s: Seq<char>, i: int) -> bool {
    ||| 0 < i && s[i - 1] != '{' && s[i - 1] != '\'' && !whitespace(s[i - 1])
    ||| i + 12 < s.len() && s[i + 12] != ',' && s[i + 12] != '\'' && !whitespace(s[i + 12])
}

/// An `.app` text: what stands before its `{applications, [...]}` term, the key of
/// the term, bare or quoted, the names in its brackets, and what stands behind.
pub struct AppText {
    pub before: Seq<char>,
    pub blank: Seq<char>,
    pub quoted: bool,
    pub gap: Seq<char>,
    pub comma_gap: Seq<char>,
    pub items: Seq<Item>,
    pub behind: Seq<char>,
}

impl AppText {
    /// Whether the text is of that form, where the word of the key stands before
    /// the term, if it does, only as a part of other words.
    pub open spec fn is_plain(self) -> bool {
        &&& forall|i: int|
            0 <= i && i + 12 <= self.before.len() && #[trigger] self.before.subrange(i, i + 12)
                == "applications"@ ==> is_part_of_a_word(self.before, i)
        &&& is_blank(self.blank)
        &&& is_blank(self.gap)
        &&& is_blank(self.comma_gap)
        &&& forall|i: int| 0 <= i < self.items.len() ==> (#[trigger] self.items[i]).is_plain()
    }

    pub open spec fn key(self) -> Seq<char> {
        if self.quoted {
            "'applications'"@
        } else {
            "applications"@
        }
    }

    /// The text up to the bracket that opens the list.
    pub open spec fn head(self) -> Seq<char> {
        self.before + "{"@ + self.blank + self.key() + self.gap + ","@ + self.comma_gap
    }

    pub open spec fn text(self) -> Seq<char> {
        self.head() + "["@ + joined_by(item_texts(self.items), ',') + "]"@ + self.behind
    }
}

proof fn lemma_begins_blank(gap: Seq<char>, c: char, rest: Seq<char>)
    requires
        is_blank(gap),
    ensures
        begins_blank_before(gap + seq![c] + rest, c),
    decreases gap.len(),
{
    let s = gap + seq![c] + rest;
    if gap.len() > 0 {
        let t = gap.drop_first();
        assert(whitespace(gap[0]));
        assert(s[0] == gap[0]);
        assert forall|i: int| 0 <= i < t.len() implies whitespace(#[trigger] t[i]) by {
            assert(t[i] == gap[i + 1]);
        }
        assert(s.drop_first() == t + seq![c] + rest);
        lemma_begins_blank(t, c, rest);
    } else {
        assert(s[0] == c);
    }
}

proof fn lemma_ends_blank(rest: Seq<char>, c: char, gap: Seq<char>)
    requires
        is_blank(gap),
    ensures
        ends_blank_after(rest + seq![c] + gap, c),
    decreases gap.len(),
{
    let s = rest + seq![c] + gap;
    if gap.len() > 0 {
        assert(whitespace(gap[gap.len() - 1]));
        assert(s.last() == gap.last());
        assert(s.drop_last() == rest + seq![c] + gap.drop_last());
        lemma_ends_blank(rest, c, gap.drop_last());
    } else {
        assert(s.last() == c);
    }
}

proof fn lemma_first_key_from(text: Seq<char>, i: int, p: int)
    requires
        0 <= i <= p < text.len(),
        is_key_at(text, p),
        forall|k: int| i <= k < p ==> !#[trigger] is_key_at(text, k),
    ensures
        first_key(text, i) == Some(p),
    decreases p - i,
{
    if i < p {
        lemma_first_key_from(text, i + 1, p);
    }
}

proof fn lemma_key(
    before: Seq<char>,
    blank: Seq<char>,
    quoted: bool,
    gap: Seq<char>,
    tail: Seq<char>,
    key: Seq<char>,
)
    requires
        forall|i: int|
            0 <= i && i + 12 <= before.len() && #[trigger] before.subrange(i, i + 12)
                == "applications"@ ==> is_part_of_a_word(before, i),
        is_blank(blank),
        is_blank(gap),
        key == (if quoted {
            "'applications'"@
        } else {
            "applications"@
        }),
    ensures
        ({
            let s = before + seq!['{'] + blank + key + (gap + seq![','] + tail);
            let q: int = if quoted {
                1
            } else {
                0
            };
            first_key(s, 0) == Some(before.len() + 1 + blank.len() + q)
        }),
{
    reveal_strlit("applications");
    reveal_strlit("'applications'");
    let word = "applications"@;
    let rest = gap + seq![','] + tail;
    let front = before + seq!['{'] + blank;
    let s = before + seq!['{'] + blank + key + rest;
    let q: int = if quoted {
        1
    } else {
        0
    };
    let p = front.len() as int + q;
    let end = p + 12;
    assert(key.len() == 12 + 2 * q);
    assert(s == front + key + rest);
    assert(s.subrange(p, end) == word) by {
        assert forall|k: int| 0 <= k < 12 implies s.subrange(p, end)[k] == word[k] by {
            assert(s[p + k] == key[q + k]);
        }
    }
    if quoted {
        assert(s[p - 1] == key[0]);
        assert(s[end] == key[13]);
    } else {
        assert(!is_quoted(s, p, end)) by {
            if blank.len() > 0 {
                assert(whitespace(blank[blank.len() - 1]));
                assert(s[p - 1] == blank[blank.len() - 1]);
            } else {
                assert(s[p - 1] == '{');
            }
        }
    }
    assert(s.take(p - q) == front);
    assert(s.skip(end + q) == rest);
    lemma_ends_blank(before, '{', blank);
    lemma_begins_blank(gap, ',', tail);
    assert(is_key_at(s, p));
    assert forall|k: int| 0 <= k < p implies !#[trigger] is_key_at(s, k) by {
        if stands_at(s, word, k) {
            let w = s.subrange(k, k + 12);
            let j = before.len() as int;
            if k + 12 <= j {
                assert(before.subrange(k, k + 12) == w);
                assert(is_part_of_a_word(before, k));
                if 0 < k {
                    assert(s.take(k).last() == before[k - 1]);
                }
                if k + 12 < j {
                    assert(s.skip(k + 12)[0] == before[k + 12]);
                }
            } else if k <= j {
                assert(w[j - k] == s[j]);
                assert(s[j] == '{');
                assert(word[j - k] != '{');
            } else {
                assert(w[0] == s[k]);
                if k < front.len() {
                    assert(s[k] == blank[k - j - 1]);
                    assert(whitespace(blank[k - j - 1]));
                    assert(!whitespace('a'));
                } else {
                    assert(s[k] == key[0]);
                }
            }
        }
    }
    lemma_first_key_from(s, 0, p);
}

proof fn lemma_brackets(
    front: Seq<char>,
    mid: Seq<char>,
    list: Seq<char>,
    behind: Seq<char>,
)
    requires
        !mid.contains('['),
        !list.contains(']'),
    ensures
        ({
            let s = front + mid + seq!['['] + list + seq![']'] + behind;
            let open = (front.len() + mid.len()) as int;
            let close = open + 1 + list.len();
            &&& find_char(s, '[', front.len() as int) == Some(open)
            &&& find_char(s, ']', open) == Some(close)
            &&& s.subrange(open + 1, close) == list
        }),
{
    let s = front + mid + seq!['['] + list + seq![']'] + behind;
    let n = front.len() as int;
    let open = (front.len() + mid.len()) as int;
    let close = open + 1 + list.len();
    lemma_find_char(s, '[', n);
    lemma_find_char(s, ']', open);
    assert(s[open] == '[');
    assert(s[close] == ']');
    assert forall|k: int| n <= k < open implies s[k] != '[' by {
        assert(s[k] == mid[k - n]);
        assert(mid.contains(mid[k - n]));
    }
    assert forall|k: int| open <= k < close implies s[k] != ']' by {
        if k > open {
            assert(s[k] == list[k - open - 1]);
            assert(list.contains(list[k - open - 1]));
        }
    }
    assert(s.subrange(open + 1, close) == list);
}

proof fn lemma_blank_has_no_bracket(s: Seq<char>)
    requires
        is_blank(s),
    ensures
        !s.contains('['),
{
    if s.contains('[') {
        let k = choose|k: int| 0 <= k < s.len() && s[k] == '[';
        assert(whitespace(s[k]));
    }
}

/// The names that an `.app` text lists in its `{applications, [...]}` term are
/// read, every one of them and in their order, and no other.
pub proof fn every_application_is_read(t: AppText)
    requires
        t.is_plain(),
    ensures
        applications(t.text()) == item_names(t.items),
{
    reveal_strlit("{");
    reveal_strlit(",");
    reveal_strlit("[");
    reveal_strlit("]");
    let s = t.text();
    let list = joined_by(item_texts(t.items), ',');
    let key = t.key();
    let q: int = if t.quoted {
        1
    } else {
        0
    };
    let tail = t.comma_gap + seq!['['] + list + seq![']'] + t.behind;
    lemma_key(t.before, t.blank, t.quoted, t.gap, tail, key);
    assert(s == t.before + seq!['{'] + t.blank + key + (t.gap + seq![','] + tail));
    assert(key.len() == 12 + 2 * q) by {
        reveal_strlit("applications");
        reveal_strlit("'applications'");
    }
    let front = t.before + seq!['{'] + t.blank + key.take(q);
    let mid = key.skip(q) + t.gap + seq![','] + t.comma_gap;
    assert(!mid.contains('[')) by {
        reveal_strlit("applications");
        reveal_strlit("'applications'");
        lemma_blank_has_no_bracket(t.gap);
        lemma_blank_has_no_bracket(t.comma_gap);
        if mid.contains('[') {
            let k = choose|k: int| 0 <= k < mid.len() && mid[k] == '[';
            let n = key.len() - q;
            if k < n {
                assert(mid[k] == key[k + q]);
            } else if k < n + t.gap.len() {
                assert(mid[k] == t.gap[k - n]);
            } else if k > n + t.gap.len() {
                assert(mid[k] == t.comma_gap[k - n - t.gap.len() - 1]);
            }
        }
    }
    every_name_in_a_list_is_read(t.items);
    lemma_brackets(front, mid, list, t.behind);
    assert(s == front + mid + seq!['['] + list + seq![']'] + t.behind);
}

proof fn lemma_no_key(text: Seq<char>, i: int)
    requires
        0 <= i,
        forall|k: int| 0 <= k < text.len() ==> !#[trigger] is_key_at(text, k),
    ensures
        first_key(text, i) is None,
    decreases text.len() - i,
{
    if i < text.len() {
        assert(!is_key_at(text, i));
        lemma_no_key(text, i + 1);
    }
}

/// A text in which the word of the key stands only as a part of other words names
/// no application.
pub proof fn texts_without_the_term_name_none(text: Seq<char>)
    requires
        forall|i: int|
            0 <= i && i + 12 <= text.len() && #[trigger] text.subrange(i, i + 12)
                == "applications"@ ==> is_part_of_a_word(text, i),
    ensures
        applications(text) == Seq::<Seq<char>>::empty(),
{
    reveal_strlit("applications");
    assert("applications"@.len() == 12);
    assert forall|k: int| 0 <= k < text.len() implies !#[trigger] is_key_at(text, k) by {
        if stands_at(text, "applications"@, k) {
            assert(text.subrange(k, k + 12) == "applications"@);
            assert(is_part_of_a_word(text, k));
            if 0 < k {
                assert(text.take(k).last() == text[k - 1]);
            }
            if k + 12 < text.len() {
                assert(text.skip(k + 12)[0] == text[k + 12]);
            }
        }
    }
    lemma_no_key(text, 0);
}

/// Whether an entry is a directory `<name>-<vsn>`.
pub open spec fn is_dir_of(e: EntryView, name: Seq<char>, version: Seq<char>) -> bool {
    e.is_dir && e.name == Some(name + "-"@ + version)
}

/// Where an application has a directory, the one that is taken is one of its
/// directories, of a version that is not older than any other's.
pub proof fn newest_directory_is_taken(
    entries: Seq<EntryView>,
    name: Seq<char>,
    i: int,
    version: Seq<char>,
) -> (taken: (int, Seq<char>))
    requires
        0 <= i < entries.len(),
        is_dir_of(entries[i], name, version),
    ensures
        0 <= taken.0 < entries.len(),
        is_dir_of(entries[taken.0], name, taken.1),
        newest_dir(entries, name) == Some(entries[taken.0].path),
        !older(taken.1, version),
{
    reveal_strlit("-");
    let n = entries.len() as int;
    newest_is_newest(entries, name, n);
    let prefix = name + "-"@;
    assert(entries[i].name->0.subrange(0, prefix.len() as int) == prefix);
    assert(crate::apps::is_version_of(entries[i], name));
    let best = newest_of(entries, name, n)->0;
    let m = choose|m: int| 0 <= m < n && #[trigger] entries[m] == best;
    let full = best.name->0;
    let v = full.skip(prefix.len() as int);
    assert(full.subrange(0, prefix.len() as int) == prefix);
    assert(full == prefix + v);
    assert(crate::apps::version_in(best, name) == v);
    assert(crate::apps::version_in(entries[i], name) == version);
    (m, v)
}

/// Where an application has no directory, none is taken.
pub proof fn nothing_is_taken_for_an_unknown_app(entries: Seq<EntryView>, name: Seq<char>)
    requires
        forall|i: int, v: Seq<char>|
            0 <= i < entries.len() ==> !#[trigger] is_dir_of(entries[i], name, v),
    ensures
        newest_dir(entries, name) is None,
{
    reveal_strlit("-");
    let n = entries.len() as int;
    newest_is_newest(entries, name, n);
    if newest_dir(entries, name) is Some {
        let best = newest_of(entries, name, n)->0;
        let m = choose|m: int| 0 <= m < n && #[trigger] entries[m] == best;
        let prefix = name + "-"@;
        let full = best.name->0;
        let v = full.skip(prefix.len() as int);
        assert(full.subrange(0, prefix.len() as int) == prefix);
        assert(full == prefix + v);
        assert(is_dir_of(entries[m], name, v));
    }
}

/// Whether an application is asked for: by OTP itself, or in the list of one of
/// the `.app` files.
pub open spec fn is_asked_for(app_files: Seq<AppText>, name: Seq<char>) -> bool {
    name == "kernel"@ || name == "stdlib"@ || exists|i: int|
        0 <= i < app_files.len() && #[trigger] item_names(app_files[i].items).contains(name)
}

/// The texts of `.app` files.
pub open spec fn app_texts(app_files: Seq<AppText>) -> Seq<Seq<char>> {
    app_files.map_values(|t: AppText| t.text())
}

proof fn lemma_needed(app_files: Seq<AppText>, name: Seq<char>)
    requires
        forall|i: int| 0 <= i < app_files.len() ==> (#[trigger] app_files[i]).is_plain(),
    ensures
        is_needed(app_texts(app_files), name) <==> is_asked_for(app_files, name),
{
    let texts = app_texts(app_files);
    assert forall|i: int| 0 <= i < app_files.len() implies #[trigger] applications(texts[i])
        == item_names(app_files[i].items) by {
        assert(texts[i] == app_files[i].text());
        every_application_is_read(app_files[i]);
    }
    if exists|i: int| 0 <= i < app_files.len() && #[trigger] item_names(
        app_files[i].items,
    ).contains(name) {
        let i = choose|i: int|
            0 <= i < app_files.len() && #[trigger] item_names(app_files[i].items).contains(name);
        assert(applications(texts[i]).contains(name));
    }
    if exists|i: int| 0 <= i < texts.len() && #[trigger] applications(texts[i]).contains(name) {
        let i = choose|i: int|
            0 <= i < texts.len() && #[trigger] applications(texts[i]).contains(name);
        assert(item_names(app_files[i].items).contains(name));
    }
}

proof fn lemma_put_in_order(names: Seq<Seq<char>>, name: Seq<char>) -> (all: Seq<Seq<char>>)
    requires
        ascending(names),
    ensures
        ascending(all),
        forall|n: Seq<char>| #[trigger] all.contains(n) <==> names.contains(n) || n == name,
        all.len() > 0,
        all.last() == name || names.len() > 0 && all.last() == names.last(),
    decreases names.len(),
{
    if names.len() == 0 {
        let all = seq![name];
        assert(all[0] == name);
        all
    } else {
        let last = names.last();
        let before = names.drop_last();
        texts_are_ordered(last, name, last);
        if last == name {
            assert(names[names.len() - 1] == name);
            names
        } else if comes_before(last, name) {
            let all = names.push(name);
            assert forall|i: int, j: int| 0 <= i < j < all.len() implies comes_before(
                #[trigger] all[i],
                #[trigger] all[j],
            ) by {
                if j == names.len() && i < names.len() - 1 {
                    assert(comes_before(names[i], names[names.len() - 1]));
                    texts_are_ordered(names[i], last, name);
                }
            }
            lemma_pushed(names, name);
            all
        } else {
            let rest = lemma_put_in_order(before, name);
            let all = rest.push(last);
            assert(comes_before(rest.last(), last)) by {
                if rest.last() != name {
                    assert(comes_before(names[before.len() - 1], names[names.len() - 1]));
                }
            }
            assert forall|i: int, j: int| 0 <= i < j < all.len() implies comes_before(
                #[trigger] all[i],
                #[trigger] all[j],
            ) by {
                if j == rest.len() && i < rest.len() - 1 {
                    assert(comes_before(rest[i], rest[rest.len() - 1]));
                    texts_are_ordered(rest[i], rest.last(), last);
                }
            }
            lemma_pushed(rest, last);
            lemma_pushed(before, last);
            assert(before.push(last) == names);
            all
        }
    }
}

proof fn lemma_pushed(s: Seq<Seq<char>>, v: Seq<char>)
    ensures
        forall|n: Seq<char>| #[trigger] s.push(v).contains(n) <==> s.contains(n) || n == v,
{
    let t = s.push(v);
    assert forall|n: Seq<char>| #[trigger] t.contains(n) <==> s.contains(n) || n == v by {
        if s.contains(n) {
            let k = choose|k: int| 0 <= k < s.len() && s[k] == n;
            assert(t[k] == n);
        }
        if n == v {
            assert(t[s.len() as int] == n);
        }
        if t.contains(n) && n != v {
            let k = choose|k: int| 0 <= k < t.len() && t[k] == n;
            assert(s[k] == n);
        }
    }
}

proof fn lemma_put_all_in_order(names: Seq<Seq<char>>, more: Seq<Seq<char>>) -> (all: Seq<
    Seq<char>,
>)
    requires
        ascending(names),
    ensures
        ascending(all),
        forall|n: Seq<char>| #[trigger]
            all.contains(n) <==> names.contains(n) || more.contains(n),
    decreases more.len(),
{
    if more.len() == 0 {
        names
    } else {
        let before = lemma_put_all_in_order(names, more.drop_last());
        lemma_pushed(more.drop_last(), more.last());
        assert(more.drop_last().push(more.last()) == more);
        lemma_put_in_order(before, more.last())
    }
}

proof fn lemma_names_of_files(texts: Seq<Seq<char>>, n: int) -> (all: Seq<Seq<char>>)
    requires
        0 <= n <= texts.len(),
    ensures
        ascending(all),
        forall|name: Seq<char>| #[trigger]
            all.contains(name) <==> name == "kernel"@ || name == "stdlib"@ || exists|i: int|
                0 <= i < n && #[trigger] applications(texts[i]).contains(name),
    decreases n,
{
    if n == 0 {
        let base = seq!["kernel"@, "stdlib"@];
        let none = Seq::<Seq<char>>::empty();
        let all = lemma_put_all_in_order(none, base);
        assert(base[0] == "kernel"@ && base[1] == "stdlib"@);
        assert(base.contains("kernel"@) && base.contains("stdlib"@));
        all
    } else {
        let before = lemma_names_of_files(texts, n - 1);
        let more = applications(texts[n - 1]);
        let all = lemma_put_all_in_order(before, more);
        assert forall|name: Seq<char>| #[trigger]
            all.contains(name) <==> name == "kernel"@ || name == "stdlib"@ || exists|i: int|
                0 <= i < n && #[trigger] applications(texts[i]).contains(name) by {
            assert(all.contains(name) <==> before.contains(name) || more.contains(name));
            if before.contains(name) && name != "kernel"@ && name != "stdlib"@ {
                let i = choose|i: int|
                    0 <= i < n - 1 && #[trigger] applications(texts[i]).contains(name);
                assert(applications(texts[i]).contains(name));
            }
            if more.contains(name) {
                assert(applications(texts[n - 1]).contains(name));
            }
        }
        all
    }
}

/// Whatever `.app` files there are, what they ask for can be listed, in order and
/// nothing twice, and is.
pub proof fn what_is_asked_for_can_be_listed(texts: Seq<Seq<char>>)
    ensures
        lists_needed(needed_list(texts), texts),
{
    let all = lemma_names_of_files(texts, texts.len() as int);
    assert forall|n: Seq<char>| #[trigger] all.contains(n) <==> is_needed(texts, n) by {}
    assert(lists_needed(all, texts));
}

/// Every application that is asked for and has a directory is bundled, of a
/// version that is not older than any it has; `kernel` and `stdlib` always.
pub proof fn what_is_asked_for_is_bundled(
    app_files: Seq<AppText>,
    entries: Seq<EntryView>,
    name: Seq<char>,
    i: int,
    version: Seq<char>,
) -> (taken: (int, Seq<char>))
    requires
        forall|k: int| 0 <= k < app_files.len() ==> (#[trigger] app_files[k]).is_plain(),
        is_asked_for(app_files, name),
        0 <= i < entries.len(),
        is_dir_of(entries[i], name, version),
    ensures
        0 <= taken.0 < entries.len(),
        is_dir_of(entries[taken.0], name, taken.1),
        !older(taken.1, version),
        lib_dirs(app_texts(app_files), Ok(entries)).contains(entries[taken.0].path),
{
    let texts = app_texts(app_files);
    what_is_asked_for_can_be_listed(texts);
    lemma_needed(app_files, name);
    let taken = newest_directory_is_taken(entries, name, i, version);
    needed_apps_are_included(needed_list(texts), texts, entries, name);
    taken
}

/// Nothing is bundled but the directory of an application that is asked for.
pub proof fn nothing_else_is_bundled(
    app_files: Seq<AppText>,
    entries: Seq<EntryView>,
    path: Seq<char>,
) -> (taken: (int, Seq<char>, Seq<char>))
    requires
        forall|k: int| 0 <= k < app_files.len() ==> (#[trigger] app_files[k]).is_plain(),
        lib_dirs(app_texts(app_files), Ok(entries)).contains(path),
    ensures
        0 <= taken.0 < entries.len(),
        entries[taken.0].path == path,
        is_asked_for(app_files, taken.1),
        is_dir_of(entries[taken.0], taken.1, taken.2),
{
    let texts = app_texts(app_files);
    what_is_asked_for_can_be_listed(texts);
    let names = needed_list(texts);
    let dirs = dirs_of(names, entries, names.len() as int);
    let k = choose|k: int| 0 <= k < dirs.len() && dirs[k] == path;
    only_needed_apps_are_included(names, texts, entries, names.len() as int, k);
    let name = choose|name: Seq<char>|
        is_needed(texts, name) && #[trigger] newest_dir(entries, name) == Some(dirs[k]);
    lemma_needed(app_files, name);
    reveal_strlit("-");
    let n = entries.len() as int;
    newest_is_newest(entries, name, n);
    let best = newest_of(entries, name, n)->0;
    let m = choose|m: int| 0 <= m < n && #[trigger] entries[m] == best;
    let prefix = name + "-"@;
    let full = best.name->0;
    let v = full.skip(prefix.len() as int);
    assert(full.subrange(0, prefix.len() as int) == prefix);
    assert(full == prefix + v);
    (m, name, v)
}

} // verus!
