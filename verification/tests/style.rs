use clap::builder::styling::{Color, RgbColor, Style};
use panini::style::{
    bold, cyan, enabled, error, fg, gradient, gradient_steps, header, muted, ok, paint, teal, warn,
    Rgb, ACCENT, ERROR, LINK, MUTED, PRIMARY, SECONDARY, SKY,
};
use panini::theme::clap_styles;

#[test]
fn color_needs_a_terminal_that_wants_it() {
    assert!(enabled(false, None, true));
    assert!(enabled(false, Some("xterm"), true));
    assert!(!enabled(true, Some("xterm"), true));
    assert!(!enabled(false, Some("dumb"), true));
    assert!(!enabled(false, Some("xterm"), false));
}

#[test]
fn colors_are_truecolor_escapes() {
    assert_eq!(fg(PRIMARY), "\x1b[38;2;0;232;198m");
    assert_eq!(paint(true, LINK, "x"), "\x1b[38;2;255;160;100mx\x1b[0m");
    assert_eq!(bold(true, ACCENT, "x"), "\x1b[1m\x1b[38;2;130;100;255mx\x1b[0m");
}

#[test]
fn without_color_text_is_plain() {
    assert_eq!(paint(false, LINK, "x"), "x");
    assert_eq!(bold(false, LINK, "x"), "x");
    assert_eq!(gradient(false, "x🥪", &vec![]), "x🥪");
}

#[test]
fn shortcuts_have_their_colors() {
    assert_eq!(teal(true, "x"), paint(true, PRIMARY, "x"));
    assert_eq!(cyan(true, "x"), paint(true, SECONDARY, "x"));
    assert_eq!(header(true, "x"), bold(true, ACCENT, "x"));
    assert_eq!(ok(true, "x"), paint(true, PRIMARY, "x"));
    assert_eq!(warn(true, "x"), paint(true, LINK, "x"));
    assert_eq!(error(true, "x"), bold(true, ERROR, "x"));
    assert_eq!(muted(true, "x"), paint(true, MUTED, "x"));
}

fn lerp(a: u8, b: u8, t: f32) -> u8 {
    (a as f32 + (b as f32 - a as f32) * t).round() as u8
}

#[test]
fn gradient_runs_from_teal_to_violet() {
    let text = "a🥪c";
    let steps = gradient_steps(3);
    assert_eq!(steps, 2);
    let colors: Vec<Rgb> = (0..3)
        .map(|i| {
            let t = i as f32 / steps as f32;
            (
                lerp(PRIMARY.0, ACCENT.0, t),
                lerp(PRIMARY.1, ACCENT.1, t),
                lerp(PRIMARY.2, ACCENT.2, t),
            )
        })
        .collect();
    assert_eq!(
        gradient(true, text, &colors),
        "\x1b[1m\x1b[38;2;0;232;198ma\x1b[38;2;65;166;227m🥪\x1b[38;2;130;100;255mc\x1b[0m"
    );
}

#[test]
fn short_gradients_take_one_step() {
    assert_eq!(gradient_steps(0), 1);
    assert_eq!(gradient_steps(1), 1);
    assert_eq!(gradient_steps(2), 1);
    assert_eq!(gradient_steps(10), 9);
}

fn in_color(c: Rgb) -> Style {
    Style::new().fg_color(Some(Color::Rgb(RgbColor(c.0, c.1, c.2))))
}

#[test]
fn clap_is_themed_to_match() {
    let styles = clap_styles();
    assert_eq!(*styles.get_header(), in_color(SKY).bold());
    assert_eq!(*styles.get_usage(), in_color(SKY).bold());
    assert_eq!(*styles.get_literal(), in_color(PRIMARY));
    assert_eq!(*styles.get_placeholder(), in_color(SECONDARY));
    assert_eq!(*styles.get_valid(), in_color(PRIMARY));
    assert_eq!(*styles.get_invalid(), in_color(LINK).bold());
    assert_eq!(*styles.get_error(), in_color(ERROR).bold());
    assert_eq!(*styles.get_context(), Style::new());
}
