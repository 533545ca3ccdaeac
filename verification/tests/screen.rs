use gbcalc::calc::{AngleMode, Base, Op};
use gbcalc::keypad::layout;
use gbcalc::screen::{push_goto, render, FrameInfo, Overlay, GBCALC_VERSION, HINT};
use gbcalc::style::{ColorMode, StyleId, StyleState};
use gbcalc::theme::Theme;

fn plain_theme() -> Theme {
    let mut t = Theme::new();
    t.set_color_mode(ColorMode::NoColor);
    t
}

fn info() -> FrameInfo {
    FrameInfo {
        angle: AngleMode::Deg,
        base: Base::Dec,
        inv: false,
        pending: Op::NoOp,
        depth: 0,
        mem_set: false,
        error: false,
        display: "5".to_string(),
        dec: "5".to_string(),
        hex: "5".to_string(),
        bin: "101".to_string(),
    }
}

/// The screen text with every escape sequence taken out.
fn visible(s: &str) -> String {
    let mut out = String::new();
    let mut chars = s.chars().peekable();
    while let Some(c) = chars.next() {
        if c == '\x1b' {
            if chars.peek() == Some(&'[') {
                chars.next();
                for d in chars.by_ref() {
                    if d.is_ascii_alphabetic() {
                        break;
                    }
                }
            }
            continue;
        }
        out.push(c);
    }
    out
}

#[test]
fn cursor_moves() {
    let mut v = Vec::new();
    push_goto(&mut v, 3, 17);
    assert_eq!(v.iter().collect::<String>(), "\x1b[3;17H");
    let mut v = Vec::new();
    push_goto(&mut v, -2, 0);
    assert_eq!(v.iter().collect::<String>(), "\x1b[-2;0H");
}

#[test]
fn main_screen() {
    let t = plain_theme();
    let l = layout(80, 24);
    let s = render(&t, &l, &info(), (11, 3), Overlay::Off, &Vec::new(), &None);
    assert!(s.starts_with("\x1b[0m\x1b[2J"));
    assert!(s.ends_with("\x1b[24;80H"));
    // The top border starts at the frame's corner, title inlaid.
    assert!(s.contains(&format!("\x1b[3;4H{}", t.sgr(StyleId::Frame, StyleState::Normal))));
    let v = visible(&s);
    assert!(v.contains("\u{256d}\u{2500} gbcalc \u{2500}"));
    assert!(v.contains("DEG  DEC"));
    assert!(v.contains("hex 5   bin 101"));
    assert!(v.contains("[   DRG    ]"));
    assert!(v.contains("[       =        ]"));
    assert!(v.contains(HINT));
    // The display line: a vertical, 72 columns, a vertical.
    let line = format!("\u{2502}{}5 \u{2502}", " ".repeat(70));
    assert!(v.contains(&line));
}

#[test]
fn status_line() {
    let t = plain_theme();
    let l = layout(80, 24);
    let mut f = info();
    f.inv = true;
    f.pending = Op::Add;
    f.depth = 2;
    f.mem_set = true;
    f.angle = AngleMode::Grad;
    let s = render(&t, &l, &f, (11, 3), Overlay::Off, &Vec::new(), &None);
    let v = visible(&s);
    let left = "GRAD  DEC  INV  +  (2";
    let line = format!("\u{2502} {}{}M \u{2502}", left, " ".repeat(69 - left.len()));
    assert!(v.contains(&line));
}

#[test]
fn error_display() {
    let t = plain_theme();
    let l = layout(80, 24);
    let mut f = info();
    f.error = true;
    f.display = "Error: divide by zero".to_string();
    let s = render(&t, &l, &f, (11, 3), Overlay::Off, &Vec::new(), &None);
    let v = visible(&s);
    assert!(v.contains("Error: divide by zero \u{2502}"));
    assert!(!v.contains("hex 5"));
}

#[test]
fn too_small_terminal() {
    let t = plain_theme();
    let l = layout(40, 10);
    let s = render(&t, &l, &info(), (11, 3), Overlay::Off, &Vec::new(), &None);
    assert_eq!(
        s,
        "\x1b[0m\x1b[2J\x1b[1;1Hgbcalc needs at least 74x20, terminal is 40x10\x1b[2;1Hresize the window, or press q to quit\x1b[10;40H"
    );
}

#[test]
fn help_and_about_overlays() {
    let t = plain_theme();
    let l = layout(80, 30);
    let s = render(&t, &l, &info(), (11, 3), Overlay::Help, &Vec::new(), &None);
    let v = visible(&s);
    assert!(v.contains("gbcalc key bindings"));
    assert!(v.contains("  theme: tokyo-night"));
    assert!(!v.contains("DRG"));
    // 25 lines on 30 rows start at row 2, column 6; the theme's name
    // goes one line below the last.
    assert!(s.contains("\x1b[2;6H"));
    assert!(s.contains("\x1b[28;6H"));

    let s = render(&t, &l, &info(), (11, 3), Overlay::About, &Vec::new(), &None);
    let v = visible(&s);
    assert!(v.contains("gbcalc -- about"));
    assert!(v.contains(&format!("  version {}", GBCALC_VERSION)));
}

#[test]
fn history_overlay() {
    let t = plain_theme();
    let l = layout(80, 24);
    let s = render(&t, &l, &info(), (11, 3), Overlay::History, &Vec::new(), &None);
    assert!(visible(&s).contains("  (empty -- results appear here after '=')"));

    let h: Vec<String> = (0..30).map(|i| format!("{i} + 1 = {}", i + 1)).collect();
    let msg = Some("saved to /tmp/history.txt".to_string());
    let s = render(&t, &l, &info(), (11, 3), Overlay::History, &h, &msg);
    let v = visible(&s);
    // 24 rows leave room for the latest 18 entries.
    assert!(v.contains("  29 + 1 = 30"));
    assert!(v.contains("  12 + 1 = 13"));
    assert!(!v.contains("  11 + 1 = 12"));
    assert!(v.contains("  saved to /tmp/history.txt"));
}

#[test]
fn long_history_shows_its_latest_entries() {
    let t = plain_theme();
    let l = layout(80, 24);
    let h: Vec<String> = (0..5000).map(|i| format!("{i} * 2 = {}", i * 2)).collect();
    let s = render(&t, &l, &info(), (11, 3), Overlay::History, &h, &None);
    let v = visible(&s);
    assert!(v.contains("  4999 * 2 = 9998"));
    assert!(v.contains("  4982 * 2 = 9964"));
    assert!(!v.contains("  4981 * 2 = 9962"));
}
