use gbcalc::calc::{Base, Op, Unary};
use gbcalc::keypad::{
    btn_active, btn_enabled, button, draw_right, find_key, focus_clamp, focus_row, hit_test,
    key_bound_elsewhere, layout, parse_i32, parse_mouse_press, press_plan, rect, row_width, Action,
    Layout, Rect, NROWS,
};

#[test]
fn shortcut_keys() {
    assert_eq!(find_key(Base::Dec, 'e' as i32), Some((2, 2)));
    assert_eq!(find_key(Base::Dec, 'E' as i32), Some((2, 4)));
    assert_eq!(find_key(Base::Dec, '=' as i32), Some((11, 3)));
    assert_eq!(find_key(Base::Dec, '7' as i32), Some((7, 0)));
    assert_eq!(find_key(Base::Dec, '_' as i32), Some((10, 2)));
    assert_eq!(find_key(Base::Dec, '\\' as i32), Some((5, 3)));
    // Hex digits are keys only in HEX mode.
    assert_eq!(find_key(Base::Dec, 'a' as i32), None);
    assert_eq!(find_key(Base::Hex, 'a' as i32), Some((6, 0)));
    assert_eq!(find_key(Base::Hex, 'e' as i32), Some((6, 4)));
    assert_eq!(find_key(Base::Hex, 'C' as i32), Some((6, 2)));
    // D, B and A stay DEC, BIN and ANS so the base can be switched back.
    assert_eq!(find_key(Base::Hex, 'D' as i32), Some((4, 0)));
    assert_eq!(find_key(Base::Hex, 'B' as i32), Some((4, 2)));
    assert_eq!(find_key(Base::Hex, 'A' as i32), Some((5, 5)));
    assert!(key_bound_elsewhere('D' as i32));
    assert!(!key_bound_elsewhere('C' as i32));
    assert_eq!(find_key(Base::Dec, 0x100), None);
    assert_eq!(find_key(Base::Dec, 'z' as i32), None);
}

#[test]
fn button_table() {
    let b = button(0, 0);
    assert_eq!(b.label, "DRG");
    assert_eq!(b.act, Action::Drg);
    assert_eq!(b.inv, Action::DrgConv);
    assert_eq!(button(11, 3).label, "=");
    assert_eq!(button(1, 3).act, Action::Op(Op::Pow));
    assert_eq!(button(1, 3).inv, Action::Op(Op::Root));
    assert_eq!(row_width(0), 6);
    assert_eq!(row_width(6), 6);
    assert_eq!(row_width(7), 4);
}

#[test]
fn inv_is_one_shot() {
    let sin = button(0, 2);
    assert_eq!(press_plan(Base::Dec, true, &sin), Some((Action::Unary(Unary::Asin), true)));
    assert_eq!(press_plan(Base::Dec, false, &sin), Some((Action::Unary(Unary::Sin), true)));
    let inv = button(0, 1);
    assert_eq!(press_plan(Base::Dec, true, &inv), Some((Action::Inv, false)));
    // A key without a second function does its own under INV.
    let fact = button(0, 5);
    assert_eq!(press_plan(Base::Dec, true, &fact), Some((Action::Unary(Unary::Fact), true)));
    // Disabled keys do nothing: hex digits outside HEX, the point outside DEC.
    assert_eq!(press_plan(Base::Dec, false, &button(6, 0)), None);
    assert_eq!(press_plan(Base::Hex, false, &button(10, 1)), None);
    assert_eq!(press_plan(Base::Bin, false, &button(7, 2)), None);
}

#[test]
fn enabled_and_active() {
    assert!(btn_enabled(Base::Hex, &button(6, 5)));
    assert!(!btn_enabled(Base::Bin, &button(9, 1)));
    assert!(btn_enabled(Base::Bin, &button(9, 0)));
    assert!(btn_active(Base::Hex, false, &button(4, 1)));
    assert!(!btn_active(Base::Dec, false, &button(4, 1)));
    assert!(btn_active(Base::Dec, true, &button(0, 1)));
}

#[test]
fn centred_layout() {
    let l = layout(80, 24);
    assert_eq!(l, Layout { cols: 80, lines: 24, ox: 4, oy: 3 });
    let small = layout(10, 10);
    assert_eq!((small.ox, small.oy), (1, 1));
    assert_eq!(rect(&l, 0, 0), Rect { x: 5, y: 9, w: 12 });
    assert_eq!(rect(&l, 11, 3), Rect { x: 59, y: 21, w: 18 });
    assert_eq!(rect(&l, 6, 5), Rect { x: 65, y: 16, w: 12 });
}

#[test]
fn clicks_hit_buttons() {
    let l = layout(100, 40);
    for r in 0..NROWS {
        for c in 0..row_width(r) {
            let rc = rect(&l, r, c);
            assert_eq!(hit_test(&l, rc.x, rc.y), Some((r, c)));
            assert_eq!(hit_test(&l, rc.x + rc.w - 1, rc.y), Some((r, c)));
        }
    }
    // The blank lines between the frame and the two sections.
    let top = rect(&l, 0, 0);
    assert_eq!(hit_test(&l, top.x, top.y - 1), None);
    let digits = rect(&l, 6, 0);
    assert_eq!(hit_test(&l, digits.x, digits.y - 1), None);
    assert_eq!(hit_test(&l, top.x - 1, top.y), None);
}

#[test]
fn focus_moves() {
    let l = layout(80, 24);
    // Up from "=" lands on "+", down from the last row wraps to the first.
    assert_eq!(focus_row(&l, 11, 3, 10), (10, 3));
    assert_eq!(focus_row(&l, 11, 3, 12), (0, 5));
    assert_eq!(focus_row(&l, 0, 0, -1), (11, 0));
    assert_eq!(focus_clamp(12, 9), (11, 3));
    assert_eq!(focus_clamp(3, 4), (3, 4));
    assert_eq!(focus_clamp(8, 5), (8, 3));
}

#[test]
fn right_aligned_field() {
    assert_eq!(draw_right("5", 4), "   5");
    assert_eq!(draw_right("12345", 3), "..5");
    assert_eq!(draw_right("1234", 4), "1234");
    assert_eq!(draw_right("12345", 4), "..45");
    assert_eq!(draw_right("", 2), "  ");
    for s in ["", "1", "123456789"] {
        assert_eq!(draw_right(s, 6).chars().count(), 6);
    }
}

#[test]
fn mouse_reports() {
    assert_eq!(parse_mouse_press(b"0;10;5"), Some((10, 5)));
    assert_eq!(parse_mouse_press(b"32;3;4"), Some((3, 4)));
    assert_eq!(parse_mouse_press(b"1;10;5"), None);
    assert_eq!(parse_mouse_press(b"64;10;5"), None);
    assert_eq!(parse_mouse_press(b"0;10"), None);
    assert_eq!(parse_mouse_press(b"0;x;5"), None);
    assert_eq!(parse_i32(b"-12"), Some(-12));
    assert_eq!(parse_i32(b"+7"), Some(7));
    assert_eq!(parse_i32(b""), None);
    assert_eq!(parse_i32(b"-"), None);
    assert_eq!(parse_i32(b"2147483647"), Some(i32::MAX));
    assert_eq!(parse_i32(b"2147483648"), None);
    assert_eq!(parse_i32(b"-2147483648"), Some(i32::MIN));
}

#[test]
fn every_shortcut_reaches_its_button() {
    for r in 0..NROWS {
        for c in 0..row_width(r) {
            let b = button(r, c);
            for k in b.keys.chars() {
                if b.hexdigit_only {
                    if k.is_ascii_lowercase() {
                        assert_eq!(find_key(Base::Hex, k as i32), Some((r, c)));
                    }
                    // Outside HEX the hex-digit row takes no key.
                    assert_ne!(find_key(Base::Dec, k as i32).map(|p| p.0), Some(6));
                } else {
                    assert_eq!(find_key(Base::Dec, k as i32), Some((r, c)), "key {k:?}");
                }
            }
        }
    }
}
