use gbcalc::style::{ColorMode, StyleId, StyleState};
use gbcalc::theme::Theme;

fn truecolor_theme() -> Theme {
    let mut t = Theme::new();
    t.set_color_mode(ColorMode::TrueColor);
    t
}

#[test]
fn metadata_and_chrome() {
    let t = truecolor_theme();
    assert_eq!(t.name(), "tokyo-night");
    assert_eq!(t.chrome().title, "gbcalc");
    assert_eq!(t.chrome().tl, "\u{256d}");
    assert_eq!(t.chrome().key_left, "[");
    assert_eq!(t.chrome().key_right, "]");
}

#[test]
fn frame_style() {
    let t = truecolor_theme();
    assert_eq!(
        t.sgr(StyleId::Frame, StyleState::Normal),
        "\x1b[0;1;38;2;122;162;247m"
    );
}

#[test]
fn focus_swaps_fg_and_bg() {
    let t = truecolor_theme();
    assert_eq!(
        t.sgr(StyleId::KeyDigit, StyleState::Focus),
        "\x1b[0;1;38;2;169;177;214;48;2;22;22;30m"
    );
}

#[test]
fn disabled_drops_bg_but_keeps_base_attrs() {
    // `none` in `state.disabled` clears whatever was in the (empty)
    // xform accumulator at parse time, not the base style it is later
    // merged onto -- so the base's `bold` survives alongside `dim`.
    let t = truecolor_theme();
    assert_eq!(
        t.sgr(StyleId::Frame, StyleState::Disabled),
        "\x1b[0;1;2;38;2;65;72;104m"
    );
}

#[test]
fn active_state_is_explicit_override() {
    let t = truecolor_theme();
    assert_eq!(
        t.sgr(StyleId::KeyDigit, StyleState::Active),
        "\x1b[0;1;38;2;22;22;30;48;2;158;206;106m"
    );
}

#[test]
fn color_mode_reduces_precision() {
    let mut t = Theme::new();
    t.set_color_mode(ColorMode::C16);
    // fg=#7aa2f7 quantizes to the nearest of the 16 base colours.
    let got = t.sgr(StyleId::Frame, StyleState::Normal);
    assert!(got.starts_with("\x1b[0;1;"));
    assert!(!got.contains(";2;")); // no truecolor triplet
}

#[test]
fn none_mode_drops_color_but_keeps_reverse() {
    let mut t = Theme::new();
    t.set_color_mode(ColorMode::NoColor);
    assert_eq!(t.sgr(StyleId::KeyDigit, StyleState::Focus), "\x1b[0;1;7m");
}

#[test]
fn unknown_slot_is_rejected() {
    let mut t = Theme::new();
    let err = t.parse_buffer("bogus fg=red\n", "<test>").unwrap_err();
    assert_eq!(err, "<test>:1: unknown slot 'bogus'");
}

#[test]
fn state_without_suffix_is_rejected() {
    let mut t = Theme::new();
    let err = t.parse_buffer("state bold\n", "<test>").unwrap_err();
    assert_eq!(
        err,
        "<test>:1: state needs .focus, .active or .disabled"
    );
}

#[test]
fn comment_only_inside_token_boundary() {
    let mut t = Theme::new(); // base theme already has "frame ... bold"
    t.parse_buffer("frame fg=#010203 # a comment\n", "<test>").unwrap();
    t.set_color_mode(ColorMode::TrueColor);
    assert_eq!(
        t.sgr(StyleId::Frame, StyleState::Normal),
        "\x1b[0;1;38;2;1;2;3m"
    );
}
