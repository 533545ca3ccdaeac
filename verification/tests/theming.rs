use gbcalc::style::{
    clamp255, merge, quantize16, quantize256, Color, ColorKind, ColorMode, Style, StyleId,
    StyleState, ATTR_BOLD, ATTR_CLEAR, ATTR_DIM, SET_FG,
};
use gbcalc::theme::{dump, key_slot_ids, parse_color_mode, sgr_reset, Theme, DEFAULT_THEME};

fn all_sgr(t: &Theme) -> Vec<String> {
    let mut v = Vec::new();
    for i in 0..22 {
        for j in 0..4 {
            v.push(t.sgr(StyleId::at(i), StyleState::at(j)).to_string());
        }
    }
    v
}

#[test]
fn every_sequence_is_well_formed() {
    for mode in [ColorMode::TrueColor, ColorMode::C256, ColorMode::C16, ColorMode::NoColor] {
        let mut t = Theme::new();
        t.set_color_mode(mode);
        for s in all_sgr(&t) {
            assert!(s.starts_with("\x1b[0"), "{s:?}");
            assert!(s.ends_with('m'), "{s:?}");
        }
    }
    // A refused text leaves the sequences as they were.
    let mut t = Theme::new();
    let before = all_sgr(&t);
    assert!(t.load_text("frame fg=red\nbogus\n", "<t>").is_err());
    assert_eq!(all_sgr(&t), before);
}

#[test]
fn bad_values_are_reported() {
    let mut t = Theme::new();
    assert_eq!(
        t.parse_buffer("frame fg=#12\n", "<t>").unwrap_err(),
        "<t>:1: bad value 'fg=#12'"
    );
    assert_eq!(
        t.parse_buffer("\n\nframe blink\n", "x.conf").unwrap_err(),
        "x.conf:3: bad value 'blink'"
    );
    assert_eq!(
        t.parse_buffer("key bg=256\n", "<t>").unwrap_err(),
        "<t>:1: bad value 'bg=256'"
    );
    assert!(t.parse_buffer("frame fg=BrightRed bg=default italic\n", "<t>").is_ok());
}

#[test]
fn later_texts_override() {
    // Reading two texts one after the other is reading them joined.
    let mut a = Theme::new();
    a.set_color_mode(ColorMode::TrueColor);
    a.load_text("frame fg=#102030\ntitle Calc", "<a>").unwrap();
    a.load_text("frame bold\nname mine", "<b>").unwrap();
    let mut b = Theme::new();
    b.set_color_mode(ColorMode::TrueColor);
    b.load_text("frame fg=#102030\ntitle Calc\nframe bold\nname mine", "<ab>").unwrap();
    assert_eq!(all_sgr(&a), all_sgr(&b));
    assert_eq!(a.name(), "mine");
    assert_eq!(b.chrome().title, "Calc");
    assert_eq!(a.sgr(StyleId::Frame, StyleState::Normal), "\x1b[0;1;38;2;16;32;48m");
}

#[test]
fn key_sets_every_category() {
    let mut t = Theme::new();
    t.set_color_mode(ColorMode::C256);
    t.load_text("key fg=1 bg=2\nkey.equals fg=3", "<t>").unwrap();
    assert_eq!(t.sgr(StyleId::KeySci, StyleState::Normal), "\x1b[0;31;42m");
    assert_eq!(t.sgr(StyleId::KeyEquals, StyleState::Normal), "\x1b[0;1;33;42m");
    assert_eq!(key_slot_ids().len(), 10);
}

#[test]
fn text_directives() {
    let mut t = Theme::new();
    t.load_text("border ascii\nbrackets < >\nname  spaced out  ", "<t>").unwrap();
    assert_eq!(t.chrome().tl, "+");
    assert_eq!(t.chrome().h, "-");
    assert_eq!(t.chrome().v, "|");
    assert_eq!(t.chrome().key_left, "<");
    assert_eq!(t.chrome().key_right, ">");
    assert_eq!(t.name(), "spaced out");
    t.load_text("brackets none\nborder double", "<t>").unwrap();
    assert_eq!(t.chrome().key_left, "");
    assert_eq!(t.chrome().key_right, "");
    assert_eq!(t.chrome().tl, "\u{2554}");
    t.load_text("brackets |", "<t>").unwrap();
    assert_eq!(t.chrome().key_right, "|");
}

#[test]
fn detected_capability() {
    let mut t = Theme::new();
    t.set_detected_mode(ColorMode::C256);
    assert!(t.sgr(StyleId::Frame, StyleState::Normal).contains(";38;5;"));
    t.set_detected_mode(ColorMode::NoColor);
    assert_eq!(t.sgr(StyleId::Frame, StyleState::Normal), "\x1b[0;1m");
    // An explicit mode wins over what was detected.
    t.set_color_mode(ColorMode::TrueColor);
    assert_eq!(t.sgr(StyleId::Frame, StyleState::Normal), "\x1b[0;1;38;2;122;162;247m");
}

#[test]
fn colour_mode_names() {
    assert_eq!(parse_color_mode("auto"), Some(ColorMode::Auto));
    assert_eq!(parse_color_mode("24bit"), Some(ColorMode::TrueColor));
    assert_eq!(parse_color_mode("256"), Some(ColorMode::C256));
    assert_eq!(parse_color_mode("ansi"), Some(ColorMode::C16));
    assert_eq!(parse_color_mode("off"), Some(ColorMode::NoColor));
    assert_eq!(parse_color_mode("none"), Some(ColorMode::NoColor));
    assert_eq!(parse_color_mode("TrueColor"), None);
}

#[test]
fn palette_reduction() {
    assert_eq!(quantize256(255, 0, 0), 196);
    assert_eq!(quantize256(0, 0, 0), 16);
    assert_eq!(quantize256(128, 128, 128), 243);
    assert_eq!(quantize256(255, 255, 255), 231);
    assert_eq!(quantize16(255, 0, 0), 9);
    assert_eq!(quantize16(0, 0, 238), 4);
    assert_eq!(quantize16(120, 120, 120), 8);
    assert_eq!(clamp255(300), 255);
    assert_eq!(clamp255(-4), 0);
    assert_eq!(clamp255(17), 17);
}

fn rgb(r: i32, g: i32, b: i32) -> Color {
    Color { kind: ColorKind::Rgb, idx: 0, r, g, b }
}

#[test]
fn merging_styles() {
    let none = Color { kind: ColorKind::Terminal, idx: 0, r: 0, g: 0, b: 0 };
    let base = Style { fg: rgb(1, 2, 3), bg: none, attrs: ATTR_BOLD, set: SET_FG };
    let over = Style { fg: rgb(9, 9, 9), bg: none, attrs: ATTR_DIM, set: SET_FG };
    let mut once = base;
    merge(&mut once, &over);
    assert_eq!(once.fg, rgb(9, 9, 9));
    assert_eq!(once.attrs, ATTR_BOLD | ATTR_DIM);
    let mut twice = once;
    merge(&mut twice, &over);
    assert_eq!(twice, once);

    let clear = Style { fg: none, bg: none, attrs: ATTR_CLEAR | ATTR_DIM, set: 0 };
    let mut c = base;
    merge(&mut c, &clear);
    assert_eq!(c.attrs, ATTR_DIM);
    assert_eq!(c.fg, rgb(1, 2, 3));
}

#[test]
fn built_in_text() {
    assert_eq!(sgr_reset(), "\x1b[0m");
    assert_eq!(dump(), DEFAULT_THEME);
    assert!(dump().starts_with("# gbcalc default theme"));
}

#[test]
fn default_is_the_built_in_theme() {
    let a = Theme::default();
    let b = Theme::new();
    assert_eq!(all_sgr(&a), all_sgr(&b));
    assert_eq!(a.name(), "tokyo-night");
}

fn chrome_text(t: &Theme) -> Vec<String> {
    let c = t.chrome();
    vec![
        c.tl.clone(),
        c.tr.clone(),
        c.bl.clone(),
        c.br.clone(),
        c.h.clone(),
        c.v.clone(),
        c.key_left.clone(),
        c.key_right.clone(),
        c.title.clone(),
    ]
}

#[test]
fn reading_the_built_in_text_again_changes_nothing() {
    let mut t = Theme::new();
    let sgr = all_sgr(&t);
    let name = t.name().to_string();
    let chrome = chrome_text(&t);
    assert_eq!(t.load_text(dump(), "<dump>"), Ok(()));
    assert_eq!(all_sgr(&t), sgr);
    assert_eq!(t.name(), name);
    assert_eq!(chrome_text(&t), chrome);
    // Any text read twice: the second reading leaves the theme as it was.
    let text = "frame fg=#102030 bold\nkey.focus bg=blue\nstate.active reverse\nborder double\nbrackets < >\ntitle Twice\n";
    t.load_text(text, "<a>").unwrap();
    let (sgr, name, chrome) = (all_sgr(&t), t.name().to_string(), chrome_text(&t));
    t.load_text(text, "<a>").unwrap();
    assert_eq!(all_sgr(&t), sgr);
    assert_eq!(t.name(), name);
    assert_eq!(chrome_text(&t), chrome);
}

fn groups(s: &str) -> Vec<String> {
    let middle = &s["\x1b[0".len()..s.len() - 1];
    if middle.is_empty() {
        return Vec::new();
    }
    assert!(middle.starts_with(';'), "{s:?}");
    middle[1..].split(';').map(|g| g.to_string()).collect()
}

#[test]
fn sequence_middles_are_digit_groups() {
    for mode in [ColorMode::TrueColor, ColorMode::C256, ColorMode::C16, ColorMode::NoColor] {
        let mut t = Theme::new();
        t.set_color_mode(mode);
        for s in all_sgr(&t) {
            for g in groups(&s) {
                assert!(!g.is_empty() && g.chars().all(|c| c.is_ascii_digit()), "{s:?}");
            }
        }
    }
}

#[test]
fn no_colour_mode_carries_attributes_only() {
    let mut t = Theme::new();
    t.set_color_mode(ColorMode::NoColor);
    let mut seen_attr = false;
    for s in all_sgr(&t) {
        for g in groups(&s) {
            assert_eq!(g.len(), 1, "{s:?}");
            seen_attr = true;
        }
    }
    assert!(seen_attr);
}

#[test]
fn refused_lines_are_named_by_number() {
    let mut t = Theme::new();
    assert_eq!(
        t.parse_buffer("name ok\n# comment\nstate bold\n", "f").unwrap_err(),
        "f:3: state needs .focus, .active or .disabled"
    );
    assert_eq!(
        t.parse_buffer("frame bold\nnosuch.focus red\n", "g").unwrap_err(),
        "g:2: bad value 'red'"
    );
    assert_eq!(
        t.parse_buffer("frame bold\nnosuch.focus bold\n", "g").unwrap_err(),
        "g:2: unknown slot 'nosuch'"
    );
    assert!(t.parse_buffer("name x # not a slot\nborder heavy\n", "h").is_ok());
}
