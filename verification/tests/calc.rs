use gbcalc::calc::{
    angle_name, base_name, bitwise, digit_of, fmt_entry_grouped, fmt_ubase, max_digits, next_angle,
    next_base, op_symbol, prec, render_int, right_assoc, trim_trailing_zeros, AngleMode, Base,
    BitError, Op,
};
use gbcalc::engine::{reducible_exec, CalcCore};

#[test]
fn hex_and_binary_views() {
    assert_eq!(render_int(!0i64, Base::Hex), "FFFF FFFF FFFF FFFF");
    assert_eq!(render_int(255, Base::Bin), "11111111");
    assert_eq!(render_int(256, Base::Bin), "1 00000000");
    assert_eq!(render_int(30, Base::Hex), "1E");
    assert_eq!(render_int(0, Base::Hex), "0");
    assert_eq!(render_int(-2, Base::Bin).len(), 64 + 7);
    assert_eq!(fmt_ubase(0x123456, 16, 4), "12 3456");
    assert_eq!(fmt_ubase(1193046, 10, 3), "1 193 046");
}

#[test]
fn entry_grouping() {
    assert_eq!(fmt_entry_grouped("1f", 4), "1F");
    assert_eq!(fmt_entry_grouped("deadbeef1", 4), "D EADB EEF1");
    assert_eq!(fmt_entry_grouped("-ff", 4), "-FF");
}

#[test]
fn trailing_zeros() {
    assert_eq!(trim_trailing_zeros("12.500"), "12.5");
    assert_eq!(trim_trailing_zeros("3.000"), "3");
    assert_eq!(trim_trailing_zeros("-0.000"), "-0");
    assert_eq!(trim_trailing_zeros("0.000"), "0");
    assert_eq!(trim_trailing_zeros("100"), "100");
    assert_eq!(trim_trailing_zeros("1.26765060023"), "1.26765060023");
}

#[test]
fn bitwise_operators() {
    assert_eq!(bitwise(Op::And, 12, 10), Ok(8));
    assert_eq!(bitwise(Op::Or, 12, 10), Ok(14));
    assert_eq!(bitwise(Op::Xor, 12, 10), Ok(6));
    assert_eq!(bitwise(Op::Shl, 1, 8), Ok(256));
    assert_eq!(bitwise(Op::Shr, 256, 4), Ok(16));
    assert_eq!(bitwise(Op::Shr, -1, 60), Ok(15));
    assert_eq!(bitwise(Op::Shl, 1, 63), Ok(i64::MIN));
    assert_eq!(bitwise(Op::Shl, 1, 64), Err(BitError::ShiftCount));
    assert_eq!(bitwise(Op::Shr, 1, -1), Err(BitError::ShiftCount));
}

#[test]
fn names_and_cycles() {
    assert_eq!(angle_name(AngleMode::Deg), "DEG");
    assert_eq!(angle_name(AngleMode::Rad), "RAD");
    assert_eq!(angle_name(AngleMode::Grad), "GRAD");
    assert_eq!(base_name(Base::Dec), "DEC");
    assert_eq!(base_name(Base::Hex), "HEX");
    assert_eq!(base_name(Base::Bin), "BIN");
    assert_eq!(next_base(Base::Dec), Base::Hex);
    assert_eq!(next_base(next_base(next_base(Base::Dec))), Base::Dec);
    assert_eq!(next_angle(AngleMode::Deg), AngleMode::Rad);
    assert_eq!(next_angle(AngleMode::Rad), AngleMode::Grad);
    assert_eq!(next_angle(AngleMode::Grad), AngleMode::Deg);
    assert_eq!(op_symbol(Op::Mod), "mod");
    assert_eq!(op_symbol(Op::Root), "root");
    assert_eq!(op_symbol(Op::Shl), "<<");
    assert_eq!(op_symbol(Op::NoOp), "");
}

#[test]
fn digits_and_limits() {
    assert_eq!(digit_of('7'), Some(7));
    assert_eq!(digit_of('c'), Some(12));
    assert_eq!(digit_of('F'), Some(15));
    assert_eq!(digit_of('g'), None);
    assert_eq!(max_digits(Base::Dec), 18);
    assert_eq!(max_digits(Base::Hex), 16);
    assert_eq!(max_digits(Base::Bin), 64);
    assert_eq!(Base::Hex.radix(), 16);
}

#[test]
fn precedence_table() {
    assert!(prec(Op::And) < prec(Op::Add));
    assert!(prec(Op::Add) < prec(Op::Mul));
    assert!(prec(Op::Mul) < prec(Op::Pow));
    assert!(right_assoc(Op::Pow) && right_assoc(Op::Root) && !right_assoc(Op::Sub));
    // The laws on concrete operators.
    assert!(reducible_exec(Op::Add, Op::And));
    assert!(!reducible_exec(Op::Or, Op::Add));
    assert!(reducible_exec(Op::Mul, Op::Add));
    assert!(!reducible_exec(Op::Add, Op::Mul));
    assert!(!reducible_exec(Op::Pow, Op::Pow));
    assert!(reducible_exec(Op::Sub, Op::Sub));
    assert!(!reducible_exec(Op::LParen, Op::Add));
}

#[test]
fn displayed_digits_read_back() {
    // What the hexadecimal view shows, typed back as an entry, is the same
    // 64-bit pattern.
    for v in [0i64, 1, 30, 0x123456, -1, i64::MIN, 0x7fff_ffff_ffff_ffff] {
        let shown = render_int(v, Base::Hex);
        let mut c = CalcCore::new(0i64);
        c.set_base(Base::Hex);
        for ch in shown.chars() {
            if let Some(d) = digit_of(ch) {
                c.digit(d);
            }
        }
        assert_eq!(c.entry_int(), (false, v as u64));
    }
}
