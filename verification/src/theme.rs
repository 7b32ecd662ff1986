//! The palette as clap's help, usage and error styling.

use vstd::prelude::*;

use crate::style::{Rgb, ERROR, LINK, PRIMARY, SECONDARY, SKY};

verus! {

/// anstyle's text style, as clap offers it: colours and effects.
#[verifier::external_type_specification]
#[verifier::external_body]
pub struct ExStyle(clap::builder::styling::Style);

/// clap's styling of its output: a text style for each role.
#[verifier::external_type_specification]
#[verifier::external_body]
pub struct ExStyles(clap::builder::Styles);

/// What a text style sets, each under its name: an effect such as `"bold"` with
/// nothing, the foreground `"fg"` with the bytes of its colour.
pub uninterp spec fn style_holds(style: clap::builder::styling::Style) -> Map<Seq<char>, Seq<u8>>;

/// The roles a styling sets, each with what its text style sets.
pub uninterp spec fn styles_hold(styles: clap::builder::Styles) -> Map<
    Seq<char>,
    Map<Seq<char>, Seq<u8>>,
>;

/// A text style that sets nothing.
pub open spec fn plain() -> Map<Seq<char>, Seq<u8>> {
    Map::empty()
}

/// `Style::new`: no colour and no effect is set.
pub assume_specification[ clap::builder::styling::Style::new ]() -> (r:
    clap::builder::styling::Style)
    ensures
        style_holds(r) == plain(),
;

/// `Style::bold`: the bold effect is set as well, all else stays.
pub assume_specification[ clap::builder::styling::Style::bold ](
    style: clap::builder::styling::Style,
) -> (r: clap::builder::styling::Style)
    ensures
        style_holds(r) == style_holds(style).insert("bold"@, Seq::empty()),
;

/// `Style::fg_color`, given a 24-bit colour: that is the foreground then, all
/// else stays.
#[verifier::external_body]
fn colored(style: clap::builder::styling::Style, c: Rgb) -> (r: clap::builder::styling::Style)
    ensures
        style_holds(r) == style_holds(style).insert("fg"@, seq![c.0, c.1, c.2]),
{
    let rgb = clap::builder::styling::RgbColor(c.0, c.1, c.2);
    style.fg_color(Some(clap::builder::styling::Color::Rgb(rgb)))
}

/// The roles that clap's default styling sets.
pub open spec fn default_roles() -> Set<Seq<char>> {
    set![
        "header"@,
        "error"@,
        "usage"@,
        "literal"@,
        "placeholder"@,
        "valid"@,
        "invalid"@,
        "context"@,
    ]
}

/// `Styles::styled`: every role but that of values in a context is set, and
/// contexts are plain. What the other roles start from is left open.
pub assume_specification[ clap::builder::Styles::styled ]() -> (r: clap::builder::Styles)
    ensures
        styles_hold(r).dom() == default_roles(),
        styles_hold(r)["context"@] == plain(),
;

/// `Styles::header`: the text style of headings is replaced, all else stays.
pub assume_specification[ clap::builder::Styles::header ](
    styles: clap::builder::Styles,
    style: clap::builder::styling::Style,
) -> (r: clap::builder::Styles)
    ensures
        styles_hold(r) == styles_hold(styles).insert("header"@, style_holds(style)),
;

/// `Styles::usage`: the text style of usage headings is replaced, all else stays.
pub assume_specification[ clap::builder::Styles::usage ](
    styles: clap::builder::Styles,
    style: clap::builder::styling::Style,
) -> (r: clap::builder::Styles)
    ensures
        styles_hold(r) == styles_hold(styles).insert("usage"@, style_holds(style)),
;

/// `Styles::literal`: the text style of literal syntax is replaced, all else stays.
pub assume_specification[ clap::builder::Styles::literal ](
    styles: clap::builder::Styles,
    style: clap::builder::styling::Style,
) -> (r: clap::builder::Styles)
    ensures
        styles_hold(r) == styles_hold(styles).insert("literal"@, style_holds(style)),
;

/// `Styles::placeholder`: the text style of placeholders is replaced, all else stays.
pub assume_specification[ clap::builder::Styles::placeholder ](
    styles: clap::builder::Styles,
    style: clap::builder::styling::Style,
) -> (r: clap::builder::Styles)
    ensures
        styles_hold(r) == styles_hold(styles).insert("placeholder"@, style_holds(style)),
;

/// `Styles::valid`: the text style of suggestions is replaced, all else stays.
pub assume_specification[ clap::builder::Styles::valid ](
    styles: clap::builder::Styles,
    style: clap::builder::styling::Style,
) -> (r: clap::builder::Styles)
    ensures
        styles_hold(r) == styles_hold(styles).insert("valid"@, style_holds(style)),
;

/// `Styles::invalid`: the text style of invalid usage is replaced, all else stays.
pub assume_specification[ clap::builder::Styles::invalid ](
    styles: clap::builder::Styles,
    style: clap::builder::styling::Style,
) -> (r: clap::builder::Styles)
    ensures
        styles_hold(r) == styles_hold(styles).insert("invalid"@, style_holds(style)),
;

/// `Styles::error`: the text style of error headings is replaced, all else stays.
pub assume_specification[ clap::builder::Styles::error ](
    styles: clap::builder::Styles,
    style: clap::builder::styling::Style,
) -> (r: clap::builder::Styles)
    ensures
        styles_hold(r) == styles_hold(styles).insert("error"@, style_holds(style)),
;

/// A text style with a colour and no effect.
pub open spec fn in_color(c: Rgb) -> Map<Seq<char>, Seq<u8>> {
    map!["fg"@ => seq![c.0, c.1, c.2]]
}

/// A bold text style with a colour.
pub open spec fn in_bold_color(c: Rgb) -> Map<Seq<char>, Seq<u8>> {
    map!["bold"@ => Seq::empty(), "fg"@ => seq![c.0, c.1, c.2]]
}

/// The palette, role by role.
pub open spec fn palette() -> Map<Seq<char>, Map<Seq<char>, Seq<u8>>> {
    map![
        "header"@ => in_bold_color(SKY),
        "usage"@ => in_bold_color(SKY),
        "literal"@ => in_color(PRIMARY),
        "placeholder"@ => in_color(SECONDARY),
        "valid"@ => in_color(PRIMARY),
        "invalid"@ => in_bold_color(LINK),
        "error"@ => in_bold_color(ERROR),
        "context"@ => plain(),
    ]
}

fn color_style(c: Rgb) -> (r: clap::builder::styling::Style)
    ensures
        style_holds(r) == in_color(c),
{
    let r = colored(clap::builder::styling::Style::new(), c);
    assert(style_holds(r) == in_color(c));
    r
}

fn bold_color_style(c: Rgb) -> (r: clap::builder::styling::Style)
    ensures
        style_holds(r) == in_bold_color(c),
{
    let r = colored(clap::builder::styling::Style::new().bold(), c);
    assert(style_holds(r) == in_bold_color(c));
    r
}

/// The names of the roles, told apart.
proof fn lemma_roles_differ()
    ensures
        "context"@ != "header"@,
        "context"@ != "usage"@,
        "context"@ != "literal"@,
        "context"@ != "placeholder"@,
        "context"@ != "valid"@,
        "context"@ != "invalid"@,
        "context"@ != "error"@,
{
    reveal_strlit("context");
    reveal_strlit("header");
    reveal_strlit("usage");
    reveal_strlit("literal");
    reveal_strlit("placeholder");
    reveal_strlit("valid");
    reveal_strlit("invalid");
    reveal_strlit("error");
    assert("context"@[0] == 'c' && "literal"@[0] == 'l' && "invalid"@[0] == 'i');
}

/// clap's help/usage/error styling, themed to match.
pub fn clap_styles() -> (styles: clap::builder::Styles)
    ensures
        styles_hold(styles) == palette(),
{
    proof {
        lemma_roles_differ();
    }
    let styles = clap::builder::Styles::styled().header(bold_color_style(SKY)).usage(
        bold_color_style(SKY),
    ).literal(color_style(PRIMARY)).placeholder(color_style(SECONDARY)).valid(
        color_style(PRIMARY),
    ).invalid(bold_color_style(LINK)).error(bold_color_style(ERROR));
    assert(styles_hold(styles) =~= palette());
    styles
}

} // verus!
