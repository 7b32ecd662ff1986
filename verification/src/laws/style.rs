//! Promises on coloured text.

use vstd::prelude::*;

use crate::style::{
    bolded, colored_chars, fg_code, painted, shaded, Rgb, ACCENT, ERROR, HIGHLIGHT, LINK, MUTED,
    PRIMARY, SECONDARY, SKY,
};
use crate::text::decimal;
use crate::theme::palette;

verus! {

/// A colour is set by its three parts, in decimal, each followed by what divides
/// it from the next.
pub proof fn colours_are_set_by_their_parts(r: u8, g: u8, b: u8)
    ensures
        fg_code((r, g, b)) == seq!['\x1b', '[', '3', '8', ';', '2', ';'] + decimal(r as nat)
            + seq![';'] + decimal(g as nat) + seq![';'] + decimal(b as nat) + seq!['m'],
{
    reveal_strlit("\x1b[38;2;");
    reveal_strlit(";");
    reveal_strlit("m");
    assert("\x1b[38;2;"@ == seq!['\x1b', '[', '3', '8', ';', '2', ';']);
    assert(";"@ == seq![';']);
    assert("m"@ == seq!['m']);
}

/// Coloured text is the text between the code of its colour and the code that ends
/// it, bold text with that for bold before; without colour it is the text.
pub proof fn text_stands_between_its_codes(c: Rgb, s: Seq<char>)
    ensures
        painted(true, c, s) == fg_code(c) + s + seq!['\x1b', '[', '0', 'm'],
        bolded(true, c, s) == seq!['\x1b', '[', '1', 'm'] + fg_code(c) + s + seq![
            '\x1b',
            '[',
            '0',
            'm',
        ],
        painted(false, c, s) == s,
        bolded(false, c, s) == s,
{
    reveal_strlit("\x1b[0m");
    reveal_strlit("\x1b[1m");
    assert("\x1b[0m"@ == seq!['\x1b', '[', '0', 'm']);
    assert("\x1b[1m"@ == seq!['\x1b', '[', '1', 'm']);
}

/// The characters of a text, each behind the code of its own colour.
pub open spec fn each_behind_its_code(s: Seq<char>, colors: Seq<Rgb>) -> Seq<char>
    decreases s.len(),
{
    if s.len() == 0 {
        Seq::empty()
    } else {
        fg_code(colors[0]) + seq![s[0]] + each_behind_its_code(s.drop_first(), colors.drop_first())
    }
}

proof fn lemma_from(s: Seq<char>, colors: Seq<Rgb>, n: int)
    requires
        0 <= n <= s.len(),
        s.len() == colors.len(),
    ensures
        colored_chars(s, colors, n) + each_behind_its_code(s.skip(n), colors.skip(n))
            == each_behind_its_code(s, colors),
    decreases n,
{
    if n == 0 {
        assert(s.skip(0) == s);
        assert(colors.skip(0) == colors);
        let all = each_behind_its_code(s, colors);
        assert(Seq::<char>::empty() + all == all);
    } else {
        lemma_from(s, colors, n - 1);
        let (a, b) = (s.skip(n - 1), colors.skip(n - 1));
        assert(a.drop_first() == s.skip(n));
        assert(b.drop_first() == colors.skip(n));
        let before = colored_chars(s, colors, n - 1);
        let code = fg_code(colors[n - 1]);
        let rest = each_behind_its_code(s.skip(n), colors.skip(n));
        assert(s.subrange(n - 1, n) == seq![s[n - 1]]);
        assert(before + (code + seq![s[n - 1]] + rest) == before + code + seq![s[n - 1]] + rest);
    }
}

/// A text with a colour for each character is bold, has every character behind the
/// code of its own colour, and ends as coloured text does.
pub proof fn every_character_has_its_colour(s: Seq<char>, colors: Seq<Rgb>)
    requires
        s.len() == colors.len(),
    ensures
        shaded(true, s, colors) == seq!['\x1b', '[', '1', 'm'] + each_behind_its_code(s, colors)
            + seq!['\x1b', '[', '0', 'm'],
        shaded(false, s, colors) == s,
{
    reveal_strlit("\x1b[0m");
    reveal_strlit("\x1b[1m");
    assert("\x1b[0m"@ == seq!['\x1b', '[', '0', 'm']);
    assert("\x1b[1m"@ == seq!['\x1b', '[', '1', 'm']);
    let n = s.len() as int;
    lemma_from(s, colors, n);
    let whole = colored_chars(s, colors, n);
    assert(s.skip(n).len() == 0);
    assert(whole + Seq::<char>::empty() == whole);
}

/// The colours of the theme: teal, cyan, sky blue, violet, green, orange, grey and
/// red.
pub proof fn theme_is_teal_and_cyan()
    ensures
        PRIMARY == (0u8, 232u8, 198u8),
        SECONDARY == (0u8, 198u8, 232u8),
        SKY == (0u8, 210u8, 255u8),
        ACCENT == (130u8, 100u8, 255u8),
        HIGHLIGHT == (100u8, 232u8, 130u8),
        LINK == (255u8, 160u8, 100u8),
        MUTED == (200u8, 210u8, 220u8),
        ERROR == (255u8, 100u8, 100u8),
{
}

/// Help and errors are styled in the colours of the theme, role by role: headings,
/// what is invalid and errors in bold, contexts plain, and no other role.
pub proof fn roles_have_the_colours_of_the_theme(role: Seq<char>)
    ensures
        ({
            let p = palette();
            let none = Seq::<u8>::empty();
            let sky = map!["bold"@ => none, "fg"@ => seq![0u8, 210u8, 255u8]];
            let teal = map!["fg"@ => seq![0u8, 232u8, 198u8]];
            &&& p["header"@] == sky && p["usage"@] == sky
            &&& p["literal"@] == teal && p["valid"@] == teal
            &&& p["placeholder"@] == map!["fg"@ => seq![0u8, 198u8, 232u8]]
            &&& p["invalid"@] == map!["bold"@ => none, "fg"@ => seq![255u8, 160u8, 100u8]]
            &&& p["error"@] == map!["bold"@ => none, "fg"@ => seq![255u8, 100u8, 100u8]]
            &&& p["context"@] == Map::<Seq<char>, Seq<u8>>::empty()
            &&& p.contains_key(role) ==> role == "header"@ || role == "usage"@ || role == "literal"@
                || role == "valid"@ || role == "placeholder"@ || role == "invalid"@ || role
                == "error"@ || role == "context"@
        }),
{
    reveal_strlit("header");
    reveal_strlit("usage");
    reveal_strlit("literal");
    reveal_strlit("placeholder");
    reveal_strlit("valid");
    reveal_strlit("invalid");
    reveal_strlit("error");
    reveal_strlit("context");
    assert("header"@[0] == 'h' && "usage"@[0] == 'u' && "literal"@[0] == 'l' && "placeholder"@[0]
        == 'p' && "valid"@[0] == 'v' && "invalid"@[0] == 'i' && "error"@[0] == 'e' && "context"@[0]
        == 'c');
}

} // verus!
