//! panini's output palette: a **teal + cyan** theme with a violet accent.
//!
//! Colors are emitted as truecolor ANSI and suppressed when stdout isn't a
//! terminal, when `NO_COLOR` is set, or under `TERM=dumb`, so piped/redirected
//! output stays clean.

use vstd::prelude::*;

use crate::process;
use crate::text;
use crate::text::{chars, decimal_text, same};

verus! {

/// A 24-bit colour: red, green, blue.
pub type Rgb = (u8, u8, u8);

/// Teal / mint: the primary brand color.
pub const PRIMARY: Rgb = (0, 232, 198);

/// Cyan: values, secondary accent.
pub const SECONDARY: Rgb = (0, 198, 232);

/// Sky blue: help headers and usage.
pub const SKY: Rgb = (0, 210, 255);

/// Violet: titles and rules.
pub const ACCENT: Rgb = (130, 100, 255);

/// Green: positive highlight.
pub const HIGHLIGHT: Rgb = (100, 232, 130);

/// Orange: links and attention.
pub const LINK: Rgb = (255, 160, 100);

/// Light grey: secondary text.
pub const MUTED: Rgb = (200, 210, 220);

/// Red: errors.
pub const ERROR: Rgb = (255, 100, 100);

/// Whether to emit color: `NO_COLOR` is not set, `TERM` is not "dumb", and
/// stdout is a terminal.
pub fn enabled(no_color_is_set: bool, term: Option<&str>, stdout_is_terminal: bool) -> (on: bool)
    ensures
        on == (!no_color_is_set && process::option_view(term) != Some("dumb"@)
            && stdout_is_terminal),
{
    let smart = match term {
        Some(t) => !same(t, "dumb"),
        None => true,
    };
    !no_color_is_set && smart && stdout_is_terminal
}

/// The escape code that sets the foreground.
pub open spec fn fg_code(c: Rgb) -> Seq<char> {
    "\x1b[38;2;"@ + text::decimal(c.0 as nat) + ";"@ + text::decimal(c.1 as nat) + ";"@
        + text::decimal(c.2 as nat) + "m"@
}

/// The escape code that sets the foreground.
pub fn fg(c: Rgb) -> (code: String)
    ensures
        code@ == fg_code(c),
{
    let mut code = "\x1b[38;2;".to_owned();
    code.append(decimal_text(c.0 as u64).as_str());
    code.append(";");
    code.append(decimal_text(c.1 as u64).as_str());
    code.append(";");
    code.append(decimal_text(c.2 as u64).as_str());
    code.append("m");
    code
}

/// Text in a colour; plain text where color is off.
pub open spec fn painted(on: bool, c: Rgb, s: Seq<char>) -> Seq<char> {
    if on {
        fg_code(c) + s + "\x1b[0m"@
    } else {
        s
    }
}

/// Bold text in a colour; plain text where color is off.
pub open spec fn bolded(on: bool, c: Rgb, s: Seq<char>) -> Seq<char> {
    if on {
        "\x1b[1m"@ + fg_code(c) + s + "\x1b[0m"@
    } else {
        s
    }
}

/// Foreground-colored text (a no-op when color is off).
pub fn paint(on: bool, c: Rgb, s: &str) -> (r: String)
    ensures
        r@ == painted(on, c, s@),
{
    if on {
        let mut r = fg(c);
        r.append(s);
        r.append("\x1b[0m");
        r
    } else {
        s.to_owned()
    }
}

/// Bold, foreground-colored text.
pub fn bold(on: bool, c: Rgb, s: &str) -> (r: String)
    ensures
        r@ == bolded(on, c, s@),
{
    if on {
        let mut r = "\x1b[1m".to_owned();
        r.append(fg(c).as_str());
        r.append(s);
        r.append("\x1b[0m");
        r
    } else {
        s.to_owned()
    }
}

/// Primary (teal) accent: checkmarks, counts, key output.
pub fn teal(on: bool, s: &str) -> (r: String)
    ensures
        r@ == painted(on, PRIMARY, s@),
{
    paint(on, PRIMARY, s)
}

/// Secondary (cyan) accent: values.
pub fn cyan(on: bool, s: &str) -> (r: String)
    ensures
        r@ == painted(on, SECONDARY, s@),
{
    paint(on, SECONDARY, s)
}

/// A bold violet section header / title.
pub fn header(on: bool, s: &str) -> (r: String)
    ensures
        r@ == bolded(on, ACCENT, s@),
{
    bold(on, ACCENT, s)
}

/// Success text or a check mark.
pub fn ok(on: bool, s: &str) -> (r: String)
    ensures
        r@ == painted(on, PRIMARY, s@),
{
    paint(on, PRIMARY, s)
}

/// A notice / attention accent.
pub fn warn(on: bool, s: &str) -> (r: String)
    ensures
        r@ == painted(on, LINK, s@),
{
    paint(on, LINK, s)
}

/// Bold error text.
pub fn error(on: bool, s: &str) -> (r: String)
    ensures
        r@ == bolded(on, ERROR, s@),
{
    bold(on, ERROR, s)
}

/// Muted / secondary text.
pub fn muted(on: bool, s: &str) -> (r: String)
    ensures
        r@ == painted(on, MUTED, s@),
{
    paint(on, MUTED, s)
}

/// Over how many steps a gradient runs across a text of `len` characters: the
/// character at `i` stands `i` steps of these along.
pub fn gradient_steps(len: usize) -> (steps: usize)
    ensures
        steps == (if len <= 2 {
            1
        } else {
            len - 1
        }),
{
    if len <= 2 {
        1
    } else {
        len - 1
    }
}

/// The first `n` characters of a text, each with its colour set before it.
pub open spec fn colored_chars(s: Seq<char>, colors: Seq<Rgb>, n: int) -> Seq<char>
    decreases n,
{
    if n <= 0 {
        Seq::empty()
    } else {
        colored_chars(s, colors, n - 1) + fg_code(colors[n - 1]) + s.subrange(n - 1, n)
    }
}

/// Bold text whose characters each have a colour of their own; plain text where
/// color is off.
pub open spec fn shaded(on: bool, s: Seq<char>, colors: Seq<Rgb>) -> Seq<char> {
    if on {
        "\x1b[1m"@ + colored_chars(s, colors, s.len() as int) + "\x1b[0m"@
    } else {
        s
    }
}

/// A left-to-right gradient across the characters of `s` (bold), given the
/// colour of each. Used for the banner; plain text when color is off.
pub fn gradient(on: bool, s: &str, colors: &Vec<Rgb>) -> (r: String)
    requires
        on ==> colors@.len() == s@.len(),
    ensures
        r@ == shaded(on, s@, colors@),
{
    if !on {
        return s.to_owned();
    }
    let n: usize = chars(s).len();
    let mut r = "\x1b[1m".to_owned();
    let mut i: usize = 0;
    assert("\x1b[1m"@ + Seq::<char>::empty() == "\x1b[1m"@);
    while i < n
        invariant
            i <= n == s@.len() == colors@.len(),
            r@ == "\x1b[1m"@ + colored_chars(s@, colors@, i as int),
        decreases n - i,
    {
        r.append(fg(colors[i]).as_str());
        r.append(s.substring_char(i, i + 1));
        i = i + 1;
        assert(r@ == "\x1b[1m"@ + colored_chars(s@, colors@, i as int));
    }
    r.append("\x1b[0m");
    r
}

/// With color off nothing is added to a text, whichever way it is to be shown.
pub proof fn no_color_is_plain_text(c: Rgb, s: Seq<char>, colors: Seq<Rgb>)
    ensures
        painted(false, c, s) == s,
        bolded(false, c, s) == s,
        shaded(false, s, colors) == s,
{
}

/// With color on the text itself stands unchanged between an escape code and
/// the reset that ends it.
pub proof fn color_keeps_the_text(c: Rgb, s: Seq<char>)
    ensures
        painted(true, c, s) == fg_code(c) + s + "\x1b[0m"@,
        bolded(true, c, s) == "\x1b[1m"@ + painted(true, c, s),
        fg_code(c)[0] == '\x1b',
{
    reveal_strlit("\x1b[38;2;");
    assert(bolded(true, c, s) == "\x1b[1m"@ + painted(true, c, s));
}

/// The characters of a text at the places where a gradient has put them.
pub open spec fn gradient_place(colors: Seq<Rgb>, s: Seq<char>, i: int) -> int {
    colored_chars(s, colors, i).len() as int + fg_code(colors[i]).len() as int
}

/// A gradient keeps every character of the text, in order, each right behind
/// the code of its own colour.
pub proof fn gradient_keeps_the_text(s: Seq<char>, colors: Seq<Rgb>, n: int, i: int)
    requires
        0 <= i < n <= s.len(),
        colors.len() == s.len(),
    ensures
        gradient_place(colors, s, i) < colored_chars(s, colors, n).len(),
        colored_chars(s, colors, n)[gradient_place(colors, s, i)] == s[i],
        text::stands_at(
            colored_chars(s, colors, n),
            fg_code(colors[i]),
            colored_chars(s, colors, i).len() as int,
        ),
    decreases n - i,
{
    let before = colored_chars(s, colors, n - 1);
    let whole = colored_chars(s, colors, n);
    let code = fg_code(colors[n - 1]);
    assert(whole == before + code + s.subrange(n - 1, n));
    if i == n - 1 {
        assert(whole.subrange(before.len() as int, (before.len() + code.len()) as int) == code);
    } else {
        gradient_keeps_the_text(s, colors, n - 1, i);
        let at = colored_chars(s, colors, i).len() as int;
        let c = fg_code(colors[i]);
        assert(whole.subrange(at, at + c.len()) == before.subrange(at, at + c.len()));
    }
}

} // verus!
