use gbcalc::calc::{Base, Op};
use gbcalc::engine::{error_message, CalcCore, CalcError, HistPart, HISTORY_MAX, STACK_MAX};

// The state machine with integer values; the arithmetic is done here, as
// the program does it with floating point.

fn apply(a: i64, op: Op, b: i64) -> i64 {
    match op {
        Op::Add => a + b,
        Op::Sub => a - b,
        Op::Mul => a * b,
        Op::Div => a / b,
        Op::Pow => a.pow(b as u32),
        Op::And => a & b,
        Op::Or => a | b,
        _ => b,
    }
}

fn value(c: &CalcCore<i64>) -> i64 {
    if c.entering() {
        c.entry_text().parse().unwrap_or(0)
    } else {
        c.acc()
    }
}

fn take(c: &mut CalcCore<i64>) -> i64 {
    let v = value(c);
    c.take_value(v);
    v
}

fn operand(c: &mut CalcCore<i64>) -> i64 {
    match c.pop_dangling() {
        Some(v) => v,
        None => take(c),
    }
}

fn op(c: &mut CalcCore<i64>, o: Op) {
    let mut r = operand(c);
    for f in c.take_reducible(o) {
        r = apply(f.value, f.op, r);
    }
    c.push_operator(r, o);
}

fn lparen(c: &mut CalcCore<i64>) {
    if c.implicit_mul() {
        op(c, Op::Mul);
    }
    c.open_paren(0);
}

fn rparen(c: &mut CalcCore<i64>) {
    let mut v = operand(c);
    for f in c.close_paren() {
        v = apply(f.value, f.op, v);
    }
    c.finish_paren(v);
}

fn equals(c: &mut CalcCore<i64>) -> i64 {
    let mut v = operand(c);
    for f in c.drain() {
        v = apply(f.value, f.op, v);
    }
    c.finish_equals(v);
    v
}

fn type_str(c: &mut CalcCore<i64>, s: &str) {
    for ch in s.chars() {
        match ch {
            '.' => c.point(),
            _ => c.digit(ch.to_digit(16).unwrap()),
        }
    }
}

#[test]
fn core_precedence() {
    let mut c = CalcCore::new(0i64);
    type_str(&mut c, "2");
    op(&mut c, Op::Add);
    type_str(&mut c, "3");
    op(&mut c, Op::Mul);
    type_str(&mut c, "4");
    assert_eq!(equals(&mut c), 14);

    let mut c = CalcCore::new(0i64);
    type_str(&mut c, "2");
    op(&mut c, Op::Mul);
    type_str(&mut c, "3");
    op(&mut c, Op::Add);
    assert_eq!(c.acc(), 6);
    type_str(&mut c, "4");
    assert_eq!(equals(&mut c), 10);

    // Power is right associative: 2^3^2 = 2^9.
    let mut c = CalcCore::new(0i64);
    type_str(&mut c, "2");
    op(&mut c, Op::Pow);
    type_str(&mut c, "3");
    op(&mut c, Op::Pow);
    type_str(&mut c, "2");
    assert_eq!(equals(&mut c), 512);
}

#[test]
fn core_parens() {
    let mut c = CalcCore::new(0i64);
    lparen(&mut c);
    type_str(&mut c, "2");
    op(&mut c, Op::Add);
    type_str(&mut c, "3");
    rparen(&mut c);
    op(&mut c, Op::Mul);
    type_str(&mut c, "4");
    assert_eq!(equals(&mut c), 20);

    // A number before "(" multiplies.
    let mut c = CalcCore::new(0i64);
    type_str(&mut c, "2");
    lparen(&mut c);
    type_str(&mut c, "3");
    op(&mut c, Op::Add);
    type_str(&mut c, "4");
    rparen(&mut c);
    assert_eq!(equals(&mut c), 14);

    // "=" closes what is still open.
    let mut c = CalcCore::new(0i64);
    type_str(&mut c, "1");
    op(&mut c, Op::Add);
    lparen(&mut c);
    type_str(&mut c, "2");
    op(&mut c, Op::Mul);
    lparen(&mut c);
    type_str(&mut c, "3");
    op(&mut c, Op::Add);
    type_str(&mut c, "4");
    assert_eq!(c.paren_depth(), 2);
    assert_eq!(equals(&mut c), 15);
    assert_eq!(c.paren_depth(), 0);
    assert_eq!(c.pending_op(), Op::NoOp);
}

#[test]
fn core_operator_replacement() {
    let mut c = CalcCore::new(0i64);
    type_str(&mut c, "8");
    op(&mut c, Op::Add);
    op(&mut c, Op::Mul);
    assert_eq!(c.pending_op(), Op::Mul);
    type_str(&mut c, "2");
    assert_eq!(equals(&mut c), 16);

    let mut c = CalcCore::new(0i64);
    type_str(&mut c, "2");
    op(&mut c, Op::Add);
    type_str(&mut c, "3");
    op(&mut c, Op::Mul);
    op(&mut c, Op::Add);
    type_str(&mut c, "4");
    assert_eq!(equals(&mut c), 9);
}

#[test]
fn core_entry_editing() {
    let mut c = CalcCore::new(0i64);
    type_str(&mut c, "12.50");
    assert_eq!(c.entry_display().unwrap(), "12.50");
    c.backspace(0);
    assert_eq!(c.entry_display().unwrap(), "12.5");
    c.point();
    assert_eq!(c.entry_display().unwrap(), "12.5");
    c.sign(0);
    assert_eq!(c.entry_display().unwrap(), "-12.5");
    c.sign(0);
    assert_eq!(c.entry_display().unwrap(), "12.5");
    assert_eq!(c.float_prefix_len(), 4);

    let mut c = CalcCore::new(0i64);
    type_str(&mut c, "0007");
    assert_eq!(c.entry_display().unwrap(), "7");

    let mut c = CalcCore::new(0i64);
    type_str(&mut c, "1.5");
    c.ee();
    c.sign(0);
    type_str(&mut c, "3");
    assert_eq!(c.entry_text(), "1.5e-3");
    c.sign(0);
    assert_eq!(c.entry_text(), "1.5e3");
    // Exponent digits stop at two.
    type_str(&mut c, "45");
    assert_eq!(c.entry_text(), "1.5e34");

    // A bare EE means 1e; a bare point means 0.
    let mut c = CalcCore::new(0i64);
    c.ee();
    assert_eq!(c.entry_text(), "1e");
    let mut c = CalcCore::new(0i64);
    c.point();
    assert_eq!(c.entry_text(), "0.");
    assert_eq!(c.float_prefix_len(), 2);
}

#[test]
fn core_digit_limits() {
    let mut c = CalcCore::new(0i64);
    type_str(&mut c, "12345678901234567890");
    assert_eq!(c.entry_text(), "123456789012345678");

    let mut c = CalcCore::new(0i64);
    c.set_base(Base::Hex);
    type_str(&mut c, "123456789abcdf012");
    assert_eq!(c.entry_text(), "123456789ABCDF01");

    // A digit the base does not have is ignored.
    let mut c = CalcCore::new(0i64);
    type_str(&mut c, "9");
    c.digit(12);
    assert_eq!(c.entry_text(), "9");
    c.set_base(Base::Bin);
    c.digit(2);
    assert_eq!(c.entry_text(), "9");
}

#[test]
fn core_hex_entry() {
    let mut c = CalcCore::new(0i64);
    c.set_base(Base::Hex);
    type_str(&mut c, "1f");
    assert_eq!(c.entry_display().unwrap(), "1F");
    assert_eq!(c.entry_int(), (false, 31));
    c.sign(0);
    assert_eq!(c.entry_int(), (true, 31));

    let mut c = CalcCore::new(0i64);
    c.set_base(Base::Bin);
    type_str(&mut c, "1111000011");
    assert_eq!(c.entry_display().unwrap(), "11 11000011");
    assert_eq!(c.entry_int(), (false, 963));

    // The point and EE work in decimal only.
    c.point();
    c.ee();
    assert_eq!(c.entry_text(), "1111000011");
}

#[test]
fn core_backspace_ends_entry() {
    let mut c = CalcCore::new(0i64);
    type_str(&mut c, "5");
    c.sign(0);
    assert_eq!(c.entry_text(), "-5");
    c.backspace(0);
    assert!(!c.entering());
    assert_eq!(c.entry_display(), None);

    let mut c = CalcCore::new(0i64);
    type_str(&mut c, "2");
    c.ee();
    c.backspace(0);
    assert_eq!(c.entry_text(), "2");
    type_str(&mut c, "3");
    assert_eq!(c.entry_text(), "23");
}

#[test]
fn core_error_latch() {
    let mut c = CalcCore::new(0i64);
    type_str(&mut c, "1");
    op(&mut c, Op::Div);
    c.fail(CalcError::DivideByZero);
    assert_eq!(c.error(), Some(CalcError::DivideByZero));
    assert_eq!(error_message(CalcError::DivideByZero), "Error: divide by zero");
    assert_eq!(c.paren_depth(), 0);
    assert_eq!(c.pending_op(), Op::NoOp);

    // Typing is ignored until C or AC.
    let shown = c.acc();
    type_str(&mut c, "5");
    c.point();
    c.ee();
    c.sign(7);
    assert!(!c.entering());
    assert_eq!(c.acc(), shown);
    c.konst(3);
    c.mem_recall();
    c.recall_ans();
    assert_eq!(c.acc(), shown);

    c.clear_entry(0);
    assert_eq!(c.error(), None);
    type_str(&mut c, "5");
    assert_eq!(c.entry_text(), "5");

    // DEL is ignored while an error is shown; AC clears everything.
    let mut c = CalcCore::new(0i64);
    c.toggle_inv();
    c.fail(CalcError::Domain);
    c.backspace(0);
    assert_eq!(c.error(), Some(CalcError::Domain));
    assert!(c.inv());
    c.all_clear(0);
    assert_eq!(c.error(), None);
    assert!(!c.inv());
}

#[test]
fn core_error_messages() {
    assert_eq!(error_message(CalcError::Undefined), "Error: undefined");
    assert_eq!(error_message(CalcError::Overflow), "Error: overflow");
    assert_eq!(error_message(CalcError::Domain), "Error: domain");
    assert_eq!(error_message(CalcError::NotInteger), "Error: not an integer");
    assert_eq!(error_message(CalcError::ShiftCount), "Error: shift count");
    assert_eq!(error_message(CalcError::TooDeep), "Error: too deep");
}

#[test]
fn core_too_deep() {
    let mut c = CalcCore::new(0i64);
    for _ in 0..STACK_MAX {
        lparen(&mut c);
    }
    assert_eq!(c.paren_depth(), STACK_MAX as i32);
    c.open_paren(0);
    assert_eq!(c.error(), Some(CalcError::TooDeep));
    assert_eq!(c.paren_depth(), 0);
}

#[test]
fn core_history_lines() {
    let mut c = CalcCore::new(0i64);
    let parts = vec![
        HistPart::Operand("2".to_string(), Op::Add),
        HistPart::Operand("3".to_string(), Op::Mul),
    ];
    c.record_history(&parts, 0, "4", "14");
    assert_eq!(c.history(), &vec!["2 + 3 * 4 = 14".to_string()]);

    let mut c = CalcCore::new(0i64);
    let parts = vec![
        HistPart::Operand("1".to_string(), Op::Add),
        HistPart::Open,
        HistPart::Operand("2".to_string(), Op::Mul),
    ];
    c.record_history(&parts, 1, "3", "7");
    assert_eq!(c.history(), &vec!["1 + (2 * 3) = 7".to_string()]);

    let mut c = CalcCore::new(0i64);
    let parts = vec![HistPart::Operand("7".to_string(), Op::Mod)];
    c.record_history(&parts, 0, "4", "3");
    let parts = vec![HistPart::Operand("5".to_string(), Op::Mul)];
    c.record_history(&parts, 0, "5", "25");
    assert_eq!(c.history(), &vec!["7 mod 4 = 3".to_string(), "5 * 5 = 25".to_string()]);
}

#[test]
fn core_history_frames_drop_dangling() {
    let mut c = CalcCore::new(0i64);
    type_str(&mut c, "2");
    op(&mut c, Op::Add);
    type_str(&mut c, "3");
    op(&mut c, Op::Mul);
    let frames = c.history_frames();
    assert_eq!(frames.len(), 1);
    assert_eq!(frames[0].value, 2);
    assert_eq!(frames[0].op, Op::Add);
    assert_eq!(equals(&mut c), 5);
}

#[test]
fn core_history_keeps_the_latest() {
    let mut c = CalcCore::new(0i64);
    for i in 0..(HISTORY_MAX + 5) {
        let parts = vec![HistPart::Operand(i.to_string(), Op::Add)];
        c.record_history(&parts, 0, "0", &i.to_string());
    }
    assert_eq!(c.history().len(), HISTORY_MAX);
    assert_eq!(c.history()[0], "5 + 0 = 5");
}

#[test]
fn core_memory_and_ans() {
    let mut c = CalcCore::new(0i64);
    c.mem_store(42);
    assert!(c.mem_set());
    c.all_clear(0);
    c.mem_recall();
    assert_eq!(c.acc(), 42);
    c.set_mem(50);
    c.mem_exchange(3);
    assert_eq!(c.acc(), 50);
    assert_eq!(c.mem(), 3);
    c.mem_clear(0);
    assert!(!c.mem_set());

    let mut c = CalcCore::new(0i64);
    type_str(&mut c, "6");
    op(&mut c, Op::Mul);
    type_str(&mut c, "7");
    equals(&mut c);
    assert_eq!(c.last_ans(), 42);
    c.all_clear(0);
    c.recall_ans();
    assert_eq!(c.acc(), 42);
}

#[test]
fn core_bitwise_binds_looser() {
    // 1 + 2 AND 3 adds first.
    let mut c = CalcCore::new(0i64);
    type_str(&mut c, "1");
    op(&mut c, Op::Add);
    type_str(&mut c, "2");
    op(&mut c, Op::And);
    assert_eq!(c.acc(), 3);
    type_str(&mut c, "3");
    assert_eq!(equals(&mut c), 3);

    // 6 OR 1 + 8: the addition waits for its right operand, then OR.
    let mut c = CalcCore::new(0i64);
    type_str(&mut c, "6");
    op(&mut c, Op::Or);
    type_str(&mut c, "1");
    op(&mut c, Op::Add);
    type_str(&mut c, "8");
    assert_eq!(equals(&mut c), 15);
}

fn prefix(s: &str) -> usize {
    let v: Vec<char> = s.chars().collect();
    gbcalc::engine::float_prefix_len(&v)
}

#[test]
fn longest_leading_number() {
    assert_eq!(prefix("1.e5x"), 4);
    assert_eq!(prefix("+.5e-2z"), 6);
    assert_eq!(prefix("."), 0);
    assert_eq!(prefix("-"), 0);
    assert_eq!(prefix("1e+"), 1);
    assert_eq!(prefix("1.5.3"), 3);
    assert_eq!(prefix("-12E+07"), 7);
    assert_eq!(prefix("abc"), 0);
    assert_eq!(prefix(""), 0);
    assert_eq!(prefix("--5"), 0);
}
