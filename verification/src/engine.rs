//! The calculator's state machine, apart from arithmetic on values: the
//! entry buffer as typed, the stack of pending operators with their
//! precedence, parentheses, memory bookkeeping, the error latch and the
//! history log. Values are of any copyable type `V`; the caller computes
//! them (parsing the entry, applying operators) and hands them in.

use vstd::prelude::*;
use crate::calc::{
    spec_digit_of, spec_max_digits, spec_op_symbol, spec_prec, spec_radix, spec_right_assoc, sym,
    ascii_upper, grouped, digit_of, max_digits, op_symbol, prec, right_assoc, sym_of, AngleMode,
    Base, Op, spec_next_angle, base_digits, lemma_sym_digit,
};
use crate::style::is_dec_digit;
use crate::text::{chars_to_string, push_all, push_str, str_chars};

verus! {

broadcast use vstd::seq_lib::group_seq_properties;

pub const STACK_MAX: usize = 32;
pub const ENTRY_MAX: usize = 72;
pub const HISTORY_MAX: usize = 200;

/// Why the calculator stopped; shown until C or AC.
#[derive(Clone, Copy, PartialEq, Eq, Debug, Structural)]
pub enum CalcError {
    Undefined,
    Overflow,
    DivideByZero,
    Domain,
    NotInteger,
    ShiftCount,
    TooDeep,
}

pub open spec fn spec_error_message(e: CalcError) -> Seq<char> {
    match e {
        CalcError::Undefined => "Error: undefined"@,
        CalcError::Overflow => "Error: overflow"@,
        CalcError::DivideByZero => "Error: divide by zero"@,
        CalcError::Domain => "Error: domain"@,
        CalcError::NotInteger => "Error: not an integer"@,
        CalcError::ShiftCount => "Error: shift count"@,
        CalcError::TooDeep => "Error: too deep"@,
    }
}

/// The message the display shows for an error.
pub fn error_message(e: CalcError) -> (s: &'static str)
    ensures
        s@ == spec_error_message(e),
{
    match e {
        CalcError::Undefined => "Error: undefined",
        CalcError::Overflow => "Error: overflow",
        CalcError::DivideByZero => "Error: divide by zero",
        CalcError::Domain => "Error: domain",
        CalcError::NotInteger => "Error: not an integer",
        CalcError::ShiftCount => "Error: shift count",
        CalcError::TooDeep => "Error: too deep",
    }
}

/// A pending operand and the operator that will combine it with what
/// follows; an `LParen` frame marks an open parenthesis.
pub struct Frame<V> {
    pub value: V,
    pub op: Op,
}

/// One element of a logged expression: an opening parenthesis, or an
/// operand (as displayed) followed by its operator.
pub enum HistPart {
    Open,
    Operand(String, Op),
}

pub enum HistPartView {
    Open,
    Operand(Seq<char>, Op),
}

impl HistPart {
    pub open spec fn view(&self) -> HistPartView {
        match self {
            HistPart::Open => HistPartView::Open,
            HistPart::Operand(t, op) => HistPartView::Operand(t@, *op),
        }
    }
}

/// Everything the state machine holds.
pub struct CoreView<V> {
    /// The digits as typed.
    pub entry: Seq<char>,
    /// The entry buffer holds the current value.
    pub entering: bool,
    /// EE was pressed: digits go to the exponent.
    pub has_exp: bool,
    pub frames: Seq<Frame<V>>,
    pub depth: int,
    /// The value shown when not entering.
    pub acc: V,
    pub mem: V,
    pub last_ans: V,
    pub base: Base,
    pub angle: AngleMode,
    /// The one-shot second-function latch.
    pub inv: bool,
    pub mem_set: bool,
    pub error: Option<CalcError>,
    /// Completed calculations, oldest first.
    pub history: Seq<Seq<char>>,
    /// An operand is available (digit, unary result, `)`).
    pub value_ready: bool,
    /// The last keypress was a binary operator.
    pub op_pending: bool,
}

// ------------------------------------------------------------ entry text

pub open spec fn is_e(c: char) -> bool {
    c == 'e' || c == 'E'
}

/// Digits typed before the exponent marker (sign and point not counted).
pub open spec fn lead_digits(s: Seq<char>) -> nat
    decreases s.len(),
{
    if s.len() == 0 || is_e(s[0]) {
        0
    } else {
        (if spec_digit_of(s[0]) is Some {
            1nat
        } else {
            0nat
        }) + lead_digits(s.drop_first())
    }
}

/// Number of digit characters in `s`.
pub open spec fn digit_count(s: Seq<char>) -> nat
    decreases s.len(),
{
    if s.len() == 0 {
        0
    } else {
        (if spec_digit_of(s[0]) is Some {
            1nat
        } else {
            0nat
        }) + digit_count(s.drop_first())
    }
}

/// Position of the first exponent marker, or the length when there is none.
pub open spec fn first_e(s: Seq<char>) -> int
    decreases s.len(),
{
    if s.len() == 0 {
        0
    } else if is_e(s[0]) {
        0
    } else {
        1 + first_e(s.drop_first())
    }
}

/// Where the exponent's digits (and sign) begin.
pub open spec fn exp_start(s: Seq<char>) -> int {
    if first_e(s) < s.len() {
        first_e(s) + 1
    } else {
        s.len() as int
    }
}

/// Digits typed after the exponent marker.
pub open spec fn exp_digits(s: Seq<char>) -> nat {
    digit_count(s.skip(exp_start(s)))
}

/// Append `c` unless the buffer is full.
pub open spec fn push_capped(s: Seq<char>, c: char) -> Seq<char> {
    if s.len() < ENTRY_MAX {
        s.push(c)
    } else {
        s
    }
}

// ------------------------------------------------------------ transitions

/// Start a fresh entry unless one is in progress.
pub open spec fn after_begin<V>(c: CoreView<V>) -> CoreView<V> {
    if c.entering {
        c
    } else {
        CoreView { entry: Seq::empty(), has_exp: false, entering: true, ..c }
    }
}

/// Typing digit `d`. Mantissa digits are capped per base, exponent digits
/// at two; a lone leading zero is replaced rather than accumulated.
pub open spec fn spec_digit<V>(c: CoreView<V>, d: int) -> CoreView<V> {
    if c.error is Some || d >= spec_radix(c.base) {
        c
    } else {
        let b = after_begin(c);
        let blocked = if b.has_exp {
            exp_digits(b.entry) >= 2
        } else {
            lead_digits(b.entry) >= spec_max_digits(b.base)
        };
        if blocked {
            b
        } else {
            let e1 = if !b.has_exp && b.entry == seq!['0'] {
                Seq::empty()
            } else if !b.has_exp && b.entry == seq!['-', '0'] {
                seq!['-']
            } else {
                b.entry
            };
            CoreView { entry: push_capped(e1, sym(d)), value_ready: true, op_pending: false, ..b }
        }
    }
}

/// Typing the decimal point (decimal mode only, once, not in the exponent).
pub open spec fn spec_point<V>(c: CoreView<V>) -> CoreView<V> {
    if c.error is Some || c.base != Base::Dec {
        c
    } else {
        let b = after_begin(c);
        if b.has_exp || b.entry.contains('.') {
            b
        } else {
            let e1 = if b.entry.len() == 0 || b.entry == seq!['-'] {
                push_capped(b.entry, '0')
            } else {
                b.entry
            };
            CoreView { entry: push_capped(e1, '.'), value_ready: true, op_pending: false, ..b }
        }
    }
}

/// EE: start the exponent (decimal mode only); a bare EE means `1e`.
pub open spec fn spec_ee<V>(c: CoreView<V>) -> CoreView<V> {
    if c.error is Some || c.base != Base::Dec {
        c
    } else {
        let b = after_begin(c);
        if b.has_exp {
            b
        } else {
            let e1 = if b.entry.len() == 0 || b.entry == seq!['-'] {
                push_capped(b.entry, '1')
            } else {
                b.entry
            };
            CoreView {
                entry: push_capped(e1, 'e'),
                has_exp: true,
                value_ready: true,
                op_pending: false,
                ..b
            }
        }
    }
}

/// Toggle a `-` at position `at` of the entry.
pub open spec fn toggle_minus(s: Seq<char>, at: int) -> Seq<char> {
    if at < s.len() && s[at] == '-' {
        s.remove(at)
    } else if s.len() < ENTRY_MAX {
        s.insert(at, '-')
    } else {
        s
    }
}

/// +/-: toggles the exponent's sign while typing an exponent, the entry's
/// sign while typing, and otherwise negates the shown value (`neg` is that
/// value negated).
pub open spec fn spec_sign<V>(c: CoreView<V>, neg: V) -> CoreView<V> {
    if c.error is Some {
        c
    } else if c.entering && c.has_exp {
        CoreView { entry: toggle_minus(c.entry, exp_start(c.entry)), ..c }
    } else if c.entering {
        CoreView { entry: toggle_minus(c.entry, 0), ..c }
    } else {
        CoreView { acc: neg, value_ready: true, ..c }
    }
}

/// C: clear the error and the entry; pending operators stay.
pub open spec fn spec_clear_entry<V>(c: CoreView<V>, zero: V) -> CoreView<V> {
    CoreView {
        error: None,
        entry: Seq::empty(),
        entering: false,
        has_exp: false,
        acc: zero,
        value_ready: false,
        ..c
    }
}

/// AC: C, plus the operator stack, parentheses and the INV latch.
pub open spec fn spec_all_clear<V>(c: CoreView<V>, zero: V) -> CoreView<V> {
    CoreView {
        frames: Seq::empty(),
        depth: 0,
        op_pending: false,
        inv: false,
        ..spec_clear_entry(c, zero)
    }
}

/// DEL: ignored while an error is shown; otherwise zeroes a finished
/// value, or removes the last typed character (ending the entry when
/// nothing, or only a sign, is left).
pub open spec fn spec_backspace<V>(c: CoreView<V>, zero: V) -> CoreView<V> {
    if c.error is Some {
        c
    } else if !c.entering {
        CoreView { acc: zero, value_ready: false, ..c }
    } else if c.entry.len() == 0 {
        CoreView { entering: false, acc: zero, ..c }
    } else {
        let e1 = c.entry.drop_last();
        let hx = if is_e(c.entry.last()) {
            false
        } else {
            c.has_exp
        };
        if e1.len() == 0 || e1 == seq!['-'] {
            CoreView { entry: Seq::empty(), has_exp: hx, entering: false, acc: zero, ..c }
        } else {
            CoreView { entry: e1, has_exp: hx, ..c }
        }
    }
}

/// Stop with an error: the entry and every pending operator are dropped.
pub open spec fn spec_fail<V>(c: CoreView<V>, e: CalcError) -> CoreView<V> {
    CoreView {
        error: Some(e),
        entering: false,
        entry: Seq::empty(),
        frames: Seq::empty(),
        depth: 0,
        value_ready: false,
        op_pending: false,
        ..c
    }
}

/// While an error is shown, typing is ignored until C or AC: digits, the
/// point, EE, +/- and DEL leave the state as it is. C clears the error; AC
/// clears everything.
pub proof fn lemma_error_latch<V>(c: CoreView<V>, d: int, neg: V, zero: V)
    requires
        c.error is Some,
    ensures
        spec_digit(c, d) == c,
        spec_point(c) == c,
        spec_ee(c) == c,
        spec_sign(c, neg) == c,
        spec_clear_entry(c, zero).error is None,
        spec_backspace(c, zero) == c,
        spec_all_clear(c, zero).error is None,
        spec_all_clear(c, zero).frames.len() == 0,
        spec_all_clear(c, zero).depth == 0,
{
}

/// A digit symbol as the entry shows it.
pub open spec fn is_sym(c: char) -> bool {
    ('0' <= c && c <= '9') || ('A' <= c && c <= 'F')
}

/// No redundant leading zero: the entry never starts with `0` (after an
/// optional `-`) followed by another digit, nor with two signs.
pub open spec fn no_lead_zero(e: Seq<char>) -> bool {
    &&& !(e.len() >= 2 && e[0] == '0' && is_sym(e[1]))
    &&& !(e.len() >= 3 && e[0] == '-' && e[1] == '0' && is_sym(e[2]))
    &&& !(e.len() >= 2 && e[0] == '-' && e[1] == '-')
}

/// The entry is free of redundant leading zeros, and while typing, an
/// exponent has its marker.
pub open spec fn entry_ok<V>(c: CoreView<V>) -> bool {
    &&& no_lead_zero(c.entry)
    &&& (c.entering && c.has_exp ==> c.entry.contains('e'))
}

proof fn lemma_push_sym_ok(e: Seq<char>, x: char, replaced: bool)
    requires
        no_lead_zero(e),
        is_sym(x),
        !replaced ==> e != seq!['0'] && e != seq!['-', '0'],
        replaced ==> e.len() == 0 || e == seq!['-'],
    ensures
        no_lead_zero(push_capped(e, x)),
{
    let n = push_capped(e, x);
    if e.len() < ENTRY_MAX {
        assert(n == e.push(x));
        if e.len() >= 2 {
            assert(n[0] == e[0] && n[1] == e[1]);
        }
        if e.len() >= 3 {
            assert(n[2] == e[2]);
        }
        if e.len() == 1 {
            assert(n[0] == e[0]);
            if e[0] == '0' {
                assert(e =~= seq!['0']);
            }
        }
        if e.len() == 2 {
            if e[0] == '-' && e[1] == '0' {
                assert(e =~= seq!['-', '0']);
            }
        }
    }
}

proof fn lemma_push_other_ok(e: Seq<char>, x: char)
    requires
        no_lead_zero(e),
        !is_sym(x),
        x != '-',
    ensures
        no_lead_zero(push_capped(e, x)),
{
    let n = push_capped(e, x);
    if e.len() < ENTRY_MAX {
        assert(n == e.push(x));
        if e.len() >= 1 {
            assert(n[0] == e[0]);
        }
        if e.len() >= 2 {
            assert(n[1] == e[1]);
        }
        if e.len() >= 3 {
            assert(n[2] == e[2]);
        }
    }
}

proof fn lemma_first_e_marker(s: Seq<char>)
    ensures
        0 <= first_e(s) <= s.len(),
        first_e(s) < s.len() ==> is_e(s[first_e(s)]),
        forall|i: int| 0 <= i < first_e(s) ==> !is_e(#[trigger] s[i]),
    decreases s.len(),
{
    if s.len() > 0 && !is_e(s[0]) {
        lemma_first_e_marker(s.drop_first());
        assert forall|i: int| 0 <= i < first_e(s) implies !is_e(#[trigger] s[i]) by {
            if i > 0 {
                assert(s[i] == s.drop_first()[i - 1]);
            }
        }
    }
}

proof fn lemma_toggle_ok(e: Seq<char>, at: int)
    requires
        no_lead_zero(e),
        0 <= at <= e.len(),
        at >= 1 ==> is_e(e[at - 1]),
    ensures
        no_lead_zero(toggle_minus(e, at)),
        e.contains('e') ==> toggle_minus(e, at).contains('e'),
{
    let n = toggle_minus(e, at);
    if at < e.len() && e[at] == '-' {
        assert(n == e.remove(at));
        if e.contains('e') {
            let k = choose|k: int| 0 <= k < e.len() && e[k] == 'e';
            if k < at {
                assert(n[k] == 'e');
            } else {
                assert(k != at);
                assert(n[k - 1] == 'e');
            }
        }
        if at == 0 {
            assert(forall|i: int| 0 <= i < n.len() ==> n[i] == e[i + 1]);
        } else if at == 1 {
            assert(n[0] == e[0]);
        } else if at == 2 {
            assert(n[0] == e[0] && n[1] == e[1]);
        } else {
            assert(n[0] == e[0] && n[1] == e[1] && n[2] == e[2]);
        }
    } else if e.len() < ENTRY_MAX {
        assert(n == e.insert(at, '-'));
        if e.contains('e') {
            let k = choose|k: int| 0 <= k < e.len() && e[k] == 'e';
            if k < at {
                assert(n[k] == 'e');
            } else {
                assert(n[k + 1] == 'e');
            }
        }
        if at == 0 {
            assert(n[0] == '-');
            assert(forall|i: int| 0 <= i < e.len() ==> n[i + 1] == e[i]);
        } else if at == 1 {
            assert(n[0] == e[0] && n[1] == '-');
        } else if at == 2 {
            assert(n[0] == e[0] && n[1] == e[1] && n[2] == '-');
        } else {
            assert(n[0] == e[0] && n[1] == e[1] && n[2] == e[2]);
        }
    }
}

proof fn lemma_first_e_is(s: Seq<char>, k: int)
    requires
        0 <= k < s.len(),
        is_e(s[k]),
        forall|i: int| 0 <= i < k ==> !is_e(#[trigger] s[i]),
    ensures
        first_e(s) == k,
    decreases k,
{
    if k > 0 {
        assert(!is_e(s[0]));
        let t = s.drop_first();
        assert forall|i: int| 0 <= i < k - 1 implies !is_e(#[trigger] t[i]) by {
            assert(t[i] == s[i + 1]);
        }
        lemma_first_e_is(t, k - 1);
    }
}

proof fn lemma_toggle_twice(e: Seq<char>, at: int)
    requires
        0 <= at <= e.len(),
        e.len() <= ENTRY_MAX,
        !(at + 1 < e.len() && e[at] == '-' && e[at + 1] == '-'),
    ensures
        toggle_minus(toggle_minus(e, at), at) == e,
{
    let n = toggle_minus(e, at);
    if at < e.len() && e[at] == '-' {
        assert(n == e.remove(at));
        assert(!(at < n.len() && n[at] == '-'));
        assert(n.insert(at, '-') =~= e);
    } else if e.len() < ENTRY_MAX {
        assert(n == e.insert(at, '-'));
        assert(n[at] == '-');
        assert(n.remove(at) =~= e);
    }
}

/// +/- pressed twice while typing gives back the entry as it was, for the
/// mantissa and for the exponent alike.
pub proof fn lemma_sign_twice<V>(c: CoreView<V>, neg1: V, neg2: V)
    requires
        c.error is None,
        c.entering,
        entry_ok(c),
        c.entry.len() <= ENTRY_MAX,
        c.has_exp ==> !(exp_start(c.entry) + 1 < c.entry.len() && c.entry[exp_start(c.entry)] == '-'
            && c.entry[exp_start(c.entry) + 1] == '-'),
    ensures
        spec_sign(spec_sign(c, neg1), neg2) == c,
{
    let e = c.entry;
    if c.has_exp {
        lemma_first_e_marker(e);
        let k = choose|k: int| 0 <= k < e.len() && e[k] == 'e';
        assert(first_e(e) <= k) by {
            if first_e(e) > k {
                assert(!is_e(e[k]));
            }
        }
        let f = first_e(e);
        let at = exp_start(e);
        assert(at == f + 1);
        let n = toggle_minus(e, at);
        lemma_toggle_twice(e, at);
        assert(n.len() > f && n[f] == e[f] && forall|i: int| 0 <= i < f ==> n[i] == e[i]) by {
            if at < e.len() && e[at] == '-' {
                assert(n == e.remove(at));
            } else if e.len() < ENTRY_MAX {
                assert(n == e.insert(at, '-'));
            }
        }
        lemma_first_e_is(n, f);
        assert(exp_start(n) == at);
        let c1 = spec_sign(c, neg1);
        assert(c1 == CoreView { entry: n, ..c });
        assert(spec_sign(c1, neg2) == CoreView { entry: toggle_minus(n, at), ..c });
        assert(CoreView { entry: e, ..c } == c);
    } else {
        assert(!(1 < e.len() && e[0] == '-' && e[1] == '-'));
        lemma_toggle_twice(e, 0);
        assert(CoreView { entry: e, ..c } == c);
    }
}

/// Typing never leaves a redundant leading zero (nor two signs) in the
/// entry: digits, the point, EE (while the buffer has room), +/- and DEL
/// all keep `entry_ok`.
pub proof fn lemma_typing_keeps_entry_ok<V>(c: CoreView<V>, d: int, neg: V, zero: V)
    requires
        entry_ok(c),
        0 <= d < 16,
    ensures
        entry_ok(spec_digit(c, d)),
        entry_ok(spec_point(c)),
        c.entry.len() + 2 <= ENTRY_MAX ==> entry_ok(spec_ee(c)),
        entry_ok(spec_sign(c, neg)),
        entry_ok(spec_backspace(c, zero)),
{
    lemma_entry_ok_digit(c, d);
    lemma_entry_ok_point(c);
    if c.entry.len() + 2 <= ENTRY_MAX {
        lemma_entry_ok_ee(c);
    }
    lemma_entry_ok_sign(c, neg);
    lemma_entry_ok_backspace(c, zero);
}

#[verifier::spinoff_prover]
#[verifier::rlimit(40)]
proof fn lemma_entry_ok_digit<V>(c: CoreView<V>, d: int)
    requires
        entry_ok(c),
        0 <= d < 16,
    ensures
        entry_ok(spec_digit(c, d)),
{
    let x = sym(d);
    assert(is_sym(x));
    let b = after_begin(c);
    assert(no_lead_zero(b.entry));
    assert(b.has_exp ==> b.entry.contains('e'));
    if b.has_exp {
        let k = choose|k: int| 0 <= k < b.entry.len() && b.entry[k] == 'e';
        assert(b.entry != seq!['0']) by {
            if b.entry == seq!['0'] {
                assert(b.entry[k] == '0');
            }
        }
        assert(b.entry != seq!['-', '0']) by {
            if b.entry == seq!['-', '0'] {
                assert(b.entry[k] == '-' || b.entry[k] == '0');
            }
        }
    }
    if !b.has_exp && b.entry == seq!['0'] {
        lemma_push_sym_ok(Seq::empty(), x, true);
    } else if !b.has_exp && b.entry == seq!['-', '0'] {
        assert(no_lead_zero(seq!['-']));
        lemma_push_sym_ok(seq!['-'], x, true);
    } else {
        lemma_push_sym_ok(b.entry, x, false);
        let n = push_capped(b.entry, x);
        if b.has_exp {
            let k = choose|k: int| 0 <= k < b.entry.len() && b.entry[k] == 'e';
            assert(n[k] == 'e');
        }
    }
}

proof fn lemma_entry_ok_point<V>(c: CoreView<V>)
    requires
        entry_ok(c),
    ensures
        entry_ok(spec_point(c)),
{
    let b = after_begin(c);
    if !(b.has_exp || b.entry.contains('.')) {
        let e1 = if b.entry.len() == 0 || b.entry == seq!['-'] {
            push_capped(b.entry, '0')
        } else {
            b.entry
        };
        if b.entry.len() == 0 || b.entry == seq!['-'] {
            lemma_push_sym_ok(b.entry, '0', true);
        }
        lemma_push_other_ok(e1, '.');
    }
}

proof fn lemma_entry_ok_ee<V>(c: CoreView<V>)
    requires
        entry_ok(c),
        c.entry.len() + 2 <= ENTRY_MAX,
    ensures
        entry_ok(spec_ee(c)),
{
    let b = after_begin(c);
    if c.error is None && c.base == Base::Dec && !b.has_exp {
        let e1 = if b.entry.len() == 0 || b.entry == seq!['-'] {
            push_capped(b.entry, '1')
        } else {
            b.entry
        };
        if b.entry.len() == 0 || b.entry == seq!['-'] {
            lemma_push_sym_ok(b.entry, '1', true);
        }
        lemma_push_other_ok(e1, 'e');
        let n = push_capped(e1, 'e');
        assert(e1.len() < ENTRY_MAX);
        assert(n[e1.len() as int] == 'e');
    }
}

proof fn lemma_entry_ok_sign<V>(c: CoreView<V>, neg: V)
    requires
        entry_ok(c),
    ensures
        entry_ok(spec_sign(c, neg)),
{
    if c.error is None && c.entering {
        if c.has_exp {
            let e = c.entry;
            lemma_first_e_marker(e);
            let k = choose|k: int| 0 <= k < e.len() && e[k] == 'e';
            assert(first_e(e) <= k) by {
                if first_e(e) > k {
                    assert(!is_e(e[k]));
                }
            }
            let at = exp_start(e);
            assert(at >= 1 && is_e(e[at - 1]));
            lemma_toggle_ok(e, at);
        } else {
            lemma_toggle_ok(c.entry, 0);
        }
    }
}

proof fn lemma_entry_ok_backspace<V>(c: CoreView<V>, zero: V)
    requires
        entry_ok(c),
    ensures
        entry_ok(spec_backspace(c, zero)),
{
    if c.error is None && c.entering && c.entry.len() > 0 {
        let e = c.entry;
        let e1 = e.drop_last();
        if e1.len() >= 1 {
            assert(e1[0] == e[0]);
        }
        if e1.len() >= 2 {
            assert(e1[1] == e[1]);
        }
        if e1.len() >= 3 {
            assert(e1[2] == e[2]);
        }
        if c.has_exp && !is_e(e.last()) {
            let k = choose|k: int| 0 <= k < e.len() && e[k] == 'e';
            assert(k != e.len() - 1);
            assert(e1[k] == 'e');
        }
    }
}

/// Consume the entry: `v` (its value) becomes the shown value.
pub open spec fn spec_take<V>(c: CoreView<V>, v: V) -> CoreView<V> {
    CoreView { acc: v, entering: false, entry: Seq::empty(), has_exp: false, ..c }
}

/// A binary operator was the last key and is still on the stack: the next
/// operator replaces it, and `)` or `=` drop it.
pub open spec fn dangling<V>(c: CoreView<V>) -> bool {
    c.op_pending && c.frames.len() > 0 && c.frames.last().op != Op::LParen
}

/// The pending operator `top` is applied before `op` is pushed: it binds
/// at least as tightly, except that equal right-associative operators wait.
pub open spec fn reducible(top: Op, op: Op) -> bool {
    top != Op::LParen && spec_prec(top) >= spec_prec(op) && !(spec_prec(top) == spec_prec(op)
        && spec_right_assoc(op))
}


/// The bitwise operators.
pub open spec fn is_bitwise_op(op: Op) -> bool {
    op == Op::Or || op == Op::Xor || op == Op::And || op == Op::Shl || op == Op::Shr
}

/// The arithmetic operators.
pub open spec fn is_arith_op(op: Op) -> bool {
    op == Op::Add || op == Op::Sub || op == Op::Mul || op == Op::Div || op == Op::Mod || op
        == Op::Pow || op == Op::Root
}

/// How operators group, as in C: a pending operator is applied before a
/// new one exactly when it binds at least as tightly (for power, more
/// tightly). Every arithmetic operator binds tighter than every bitwise
/// one; among the bitwise ones the shifts bind tightest, then AND, then
/// XOR, then OR; `*` `/` `%` bind tighter than `+` `-`, and power
/// tighter still. Operators of one level group from the left, power from
/// the right. A parenthesis is never applied.
pub proof fn lemma_binding_order()
    ensures
        forall|x: Op, y: Op|
            is_arith_op(x) && is_bitwise_op(y) ==> #[trigger] reducible(x, y) && !#[trigger] reducible(
                y,
                x,
            ),
        reducible(Op::And, Op::Or) && !reducible(Op::Or, Op::And),
        reducible(Op::Xor, Op::Or) && !reducible(Op::Or, Op::Xor),
        reducible(Op::And, Op::Xor) && !reducible(Op::Xor, Op::And),
        forall|sh: Op, y: Op|
            (sh == Op::Shl || sh == Op::Shr) && (y == Op::And || y == Op::Xor || y == Op::Or)
                ==> #[trigger] reducible(sh, y) && !#[trigger] reducible(y, sh),
        forall|x: Op, y: Op|
            (x == Op::Mul || x == Op::Div || x == Op::Mod) && (y == Op::Add || y == Op::Sub)
                ==> #[trigger] reducible(x, y) && !#[trigger] reducible(y, x),
        forall|x: Op, y: Op|
            (x == Op::Pow || x == Op::Root) && (y == Op::Mul || y == Op::Div || y == Op::Mod || y
                == Op::Add || y == Op::Sub) ==> #[trigger] reducible(x, y) && !#[trigger] reducible(
                y,
                x,
            ),
        forall|x: Op, y: Op|
            ((x == Op::Add || x == Op::Sub) && (y == Op::Add || y == Op::Sub)) || ((x == Op::Mul
                || x == Op::Div || x == Op::Mod) && (y == Op::Mul || y == Op::Div || y == Op::Mod))
                || ((x == Op::Shl || x == Op::Shr) && (y == Op::Shl || y == Op::Shr)) || (x == y
                && (x == Op::And || x == Op::Xor || x == Op::Or)) ==> #[trigger] reducible(x, y),
        forall|x: Op, y: Op|
            (x == Op::Pow || x == Op::Root) && (y == Op::Pow || y == Op::Root) ==> !#[trigger] reducible(
                x,
                y,
            ),
        forall|y: Op| !#[trigger] reducible(Op::LParen, y),
{
}

/// How many frames, from the top, are applied before `op` is pushed.
pub open spec fn reduce_count<V>(frames: Seq<Frame<V>>, op: Op) -> nat
    decreases frames.len(),
{
    if frames.len() > 0 && reducible(frames.last().op, op) {
        1 + reduce_count(frames.drop_last(), op)
    } else {
        0
    }
}

/// The precedence rules: bitwise operators bind looser than arithmetic
/// (so `1 + 2 AND 3` adds first), multiplication before addition, power
/// tightest and right-associative (`2^3^2` is `2^9`), and every other
/// operator groups left to right.
pub proof fn lemma_precedence_rules(bit: Op, arith: Op, x: Op)
    requires
        bit == Op::And || bit == Op::Or || bit == Op::Xor || bit == Op::Shl || bit == Op::Shr,
        arith == Op::Add || arith == Op::Sub || arith == Op::Mul || arith == Op::Div || arith
            == Op::Mod || arith == Op::Pow || arith == Op::Root,
        x != Op::LParen && x != Op::NoOp && x != Op::Pow && x != Op::Root,
    ensures
        reducible(arith, bit),
        !reducible(bit, arith),
        reducible(Op::Mul, Op::Add),
        !reducible(Op::Add, Op::Mul),
        !reducible(Op::Pow, Op::Pow),
        !reducible(Op::Root, Op::Pow),
        reducible(Op::Pow, Op::Mul),
        reducible(x, x),
        !reducible(Op::LParen, x),
{
}

/// Number of open-parenthesis frames.
pub open spec fn count_lparen<V>(frames: Seq<Frame<V>>) -> nat
    decreases frames.len(),
{
    if frames.len() == 0 {
        0
    } else {
        (if frames.last().op == Op::LParen {
            1nat
        } else {
            0nat
        }) + count_lparen(frames.drop_last())
    }
}

/// Within a parenthesis level, each pending operator binds more tightly
/// than the one below it (or equally, for right-associative ones): the
/// stack never holds an operator that should already have been applied.
#[verifier::opaque]
pub open spec fn precedence_ordered<V>(frames: Seq<Frame<V>>) -> bool {
    forall|i: int|
        0 <= i < frames.len() - 1 ==> !reducible(
            #[trigger] frames[i].op,
            frames[i + 1].op,
        ) || frames[i + 1].op == Op::LParen
}

/// The frames that make up an expression: the stack without a dangling
/// operator.
pub open spec fn spec_history_frames<V>(c: CoreView<V>) -> Seq<Frame<V>> {
    if dangling(c) {
        c.frames.drop_last()
    } else {
        c.frames
    }
}

/// The expression text logged for `parts`, up to the last operand.
pub open spec fn hist_prefix(parts: Seq<HistPartView>) -> Seq<char>
    decreases parts.len(),
{
    if parts.len() == 0 {
        Seq::empty()
    } else {
        let e = hist_prefix(parts.drop_last());
        match parts.last() {
            HistPartView::Open => {
                let e1 = if e.len() > 0 && e.last() != ' ' {
                    e.push(' ')
                } else {
                    e
                };
                e1.push('(')
            },
            HistPartView::Operand(t, op) => {
                let e1 = if e.len() > 0 && e.last() != '(' {
                    e.push(' ')
                } else {
                    e
                };
                e1 + t + seq![' '] + spec_op_symbol(op)
            },
        }
    }
}

/// `n` closing parentheses.
pub open spec fn closers(n: int) -> Seq<char> {
    Seq::new(if n > 0 {
        n as nat
    } else {
        0
    }, |i: int| ')')
}

/// The logged line `expr = result`, the last operand written after the
/// parts and still-open parentheses closed.
pub open spec fn hist_line(
    parts: Seq<HistPartView>,
    open_parens: int,
    last: Seq<char>,
    result: Seq<char>,
) -> Seq<char> {
    let e = hist_prefix(parts);
    let e1 = if e.len() > 0 && e.last() != '(' {
        e.push(' ')
    } else {
        e
    };
    e1 + last + closers(open_parens) + " = "@ + result
}

/// The log after appending `line`, keeping the most recent entries only.
pub open spec fn history_after(h: Seq<Seq<char>>, line: Seq<char>) -> Seq<Seq<char>> {
    let h1 = h.push(line);
    if h1.len() > HISTORY_MAX {
        h1.drop_first()
    } else {
        h1
    }
}

/// Every character of `t` is a decimal digit.
pub open spec fn all_dec(t: Seq<char>) -> bool {
    forall|i: int| 0 <= i < t.len() ==> is_dec_digit(#[trigger] t[i])
}

/// `t` without its leading sign, if it has one.
pub open spec fn unsigned_part(t: Seq<char>) -> Seq<char> {
    if t.len() > 0 && (t[0] == '-' || t[0] == '+') {
        t.skip(1)
    } else {
        t
    }
}

/// A mantissa: an optional sign, then decimal digits with at most one
/// point among them, and at least one digit.
pub open spec fn is_mantissa(t: Seq<char>) -> bool {
    let u = unsigned_part(t);
    ||| u.len() > 0 && all_dec(u)
    ||| exists|d: int|
        0 <= d < u.len() && u[d] == '.' && u.len() > 1 && all_dec(#[trigger] u.take(d)) && all_dec(
            u.skip(d + 1),
        )
}

/// An exponent: `e` or `E`, an optional sign, at least one digit.
pub open spec fn is_exponent(t: Seq<char>) -> bool {
    &&& t.len() > 0
    &&& (t[0] == 'e' || t[0] == 'E')
    &&& unsigned_part(t.skip(1)).len() > 0
    &&& all_dec(unsigned_part(t.skip(1)))
}

/// A decimal number as `strtod` reads one: a mantissa, then possibly an
/// exponent.
pub open spec fn is_number(t: Seq<char>) -> bool {
    ||| is_mantissa(t)
    ||| exists|k: int| 0 < k < t.len() && is_mantissa(#[trigger] t.take(k)) && is_exponent(t.skip(k))
}

/// `n` is the length of the longest leading part of `s` that is a number,
/// or zero when no leading part is one.
pub open spec fn longest_number_prefix(s: Seq<char>, n: int) -> bool {
    &&& 0 <= n <= s.len()
    &&& n > 0 ==> is_number(s.take(n))
    &&& forall|m: int| n < m <= s.len() ==> !is_number(#[trigger] s.take(m))
}

/// Decimal entry: the length of the longest leading part that reads as a
/// number (trailing junk is ignored); zero when none does.
pub open spec fn spec_float_prefix_len(s: Seq<char>) -> int {
    choose|n: int| longest_number_prefix(s, n)
}

// The scanner that finds that length, step by step.
spec fn sign_len(s: Seq<char>) -> int {
    if s.len() > 0 && (s[0] == '-' || s[0] == '+') {
        1
    } else {
        0
    }
}

spec fn int_end(s: Seq<char>) -> int {
    digits_end(s, sign_len(s))
}

spec fn mant_end(s: Seq<char>) -> int {
    let ie = int_end(s);
    if ie < s.len() && s[ie] == '.' {
        let fe = digits_end(s, ie + 1);
        if ie == sign_len(s) && fe == ie + 1 {
            ie
        } else {
            fe
        }
    } else {
        ie
    }
}

spec fn exponent_digits_at(s: Seq<char>) -> int {
    let me = mant_end(s);
    if me + 1 < s.len() && (s[me + 1] == '-' || s[me + 1] == '+') {
        me + 2
    } else {
        me + 1
    }
}

spec fn scan_len(s: Seq<char>) -> int {
    let me = mant_end(s);
    if me <= sign_len(s) {
        0
    } else if me < s.len() && (s[me] == 'e' || s[me] == 'E') && digits_end(s, exponent_digits_at(s))
        > exponent_digits_at(s) {
        digits_end(s, exponent_digits_at(s))
    } else {
        me
    }
}

proof fn lemma_digits_end(s: Seq<char>, i: int)
    requires
        0 <= i <= s.len(),
    ensures
        i <= digits_end(s, i) <= s.len(),
        all_dec(s.subrange(i, digits_end(s, i))),
        digits_end(s, i) < s.len() ==> !is_dec_digit(s[digits_end(s, i)]),
        forall|j: int| i <= j <= s.len() && all_dec(#[trigger] s.subrange(i, j)) ==> j <= digits_end(s, i),
    decreases s.len() - i,
{
    if i < s.len() && is_dec_digit(s[i]) {
        lemma_digits_end(s, i + 1);
        let de = digits_end(s, i);
        assert forall|k: int| 0 <= k < de - i implies is_dec_digit(#[trigger] s.subrange(i, de)[k]) by {
            if k > 0 {
                assert(s.subrange(i, de)[k] == s.subrange(i + 1, de)[k - 1]);
            }
        }
        assert forall|j: int| i <= j <= s.len() && all_dec(#[trigger] s.subrange(i, j)) implies j
            <= digits_end(s, i) by {
            if j > i + 1 {
                assert forall|k: int| 0 <= k < j - i - 1 implies is_dec_digit(
                    #[trigger] s.subrange(i + 1, j)[k],
                ) by {
                    assert(s.subrange(i + 1, j)[k] == s.subrange(i, j)[k + 1]);
                }
                assert(all_dec(s.subrange(i + 1, j)));
            }
        }
    } else {
        assert forall|j: int| i <= j <= s.len() && all_dec(#[trigger] s.subrange(i, j)) implies j
            <= digits_end(s, i) by {
            if j > i {
                assert(s.subrange(i, j)[0] == s[i]);
            }
        }
    }
}

/// A mantissa at the front of `s` ends no later than where the scanner's
/// mantissa ends, and exactly there when neither a digit nor a point
/// follows it.
proof fn lemma_mantissa_scan(s: Seq<char>, k: int)
    requires
        1 <= k <= s.len(),
        is_mantissa(s.take(k)),
    ensures
        mant_end(s) > sign_len(s),
        mant_end(s) >= k,
        k < s.len() && !is_dec_digit(s[k]) && s[k] != '.' ==> mant_end(s) == k,
{
    let i0 = sign_len(s);
    let t = s.take(k);
    let u = unsigned_part(t);
    assert(u =~= s.subrange(i0, k));
    lemma_digits_end(s, i0);
    let ie = int_end(s);
    if u.len() > 0 && all_dec(u) {
        assert(ie >= k);
        if ie < s.len() && s[ie] == '.' {
            lemma_digits_end(s, ie + 1);
        }
        if k < s.len() && !is_dec_digit(s[k]) {
            if ie > k {
                assert(s.subrange(i0, ie)[k - i0] == s[k]);
            }
        }
    } else {
        let d = choose|d: int|
            0 <= d < u.len() && u[d] == '.' && u.len() > 1 && all_dec(#[trigger] u.take(d))
                && all_dec(u.skip(d + 1));
        assert(u.take(d) =~= s.subrange(i0, i0 + d));
        assert(u.skip(d + 1) =~= s.subrange(i0 + d + 1, k));
        assert(s[i0 + d] == '.');
        assert(ie >= i0 + d);
        if ie > i0 + d {
            assert(s.subrange(i0, ie)[d] == s[i0 + d]);
        }
        assert(ie == i0 + d);
        lemma_digits_end(s, ie + 1);
        let fe = digits_end(s, ie + 1);
        assert(fe >= k);
        if k < s.len() && !is_dec_digit(s[k]) {
            if fe > k {
                assert(s.subrange(ie + 1, fe)[k - ie - 1] == s[k]);
            }
        }
    }
}

/// What the scanner finds, when not empty, is a number.
proof fn lemma_scan_is_number(s: Seq<char>)
    ensures
        0 <= scan_len(s) <= s.len(),
        scan_len(s) > 0 ==> is_number(s.take(scan_len(s))),
{
    let i0 = sign_len(s);
    let me = mant_end(s);
    let ie = int_end(s);
    let n = scan_len(s);
    lemma_digits_end(s, i0);
    if ie < s.len() && s[ie] == '.' {
        lemma_digits_end(s, ie + 1);
    }
    if me > i0 {
        let u = unsigned_part(s.take(me));
        assert(u =~= s.subrange(i0, me));
        if me == ie {
            assert(u.len() > 0 && all_dec(u));
        } else {
            let d = ie - i0;
            assert(u.take(d) =~= s.subrange(i0, ie));
            assert(u.skip(d + 1) =~= s.subrange(ie + 1, me));
            assert(u[d] == '.');
            assert(all_dec(u.take(d)));
        }
        assert(is_mantissa(s.take(me)));
        if n != me {
            let j0 = exponent_digits_at(s);
            lemma_digits_end(s, j0);
            let t = s.take(n);
            assert(t.take(me) =~= s.take(me));
            let x = t.skip(me);
            assert(x.skip(1) =~= s.subrange(me + 1, n));
            assert(unsigned_part(x.skip(1)) =~= s.subrange(j0, n));
            assert(is_exponent(x));
            assert(is_number(t));
        }
    }
}

/// No leading part longer than what the scanner finds is a number.
#[verifier::spinoff_prover]
#[verifier::rlimit(40)]
proof fn lemma_scan_maximal(s: Seq<char>, m: int)
    requires
        scan_len(s) < m <= s.len(),
    ensures
        !is_number(s.take(m)),
{
    let i0 = sign_len(s);
    let me = mant_end(s);
    if is_number(s.take(m)) {
        let t = s.take(m);
        if is_mantissa(t) {
            lemma_mantissa_scan(s, m);
        } else {
            let k = choose|k: int|
                0 < k < t.len() && is_mantissa(#[trigger] t.take(k)) && is_exponent(t.skip(k));
            assert(t.take(k) =~= s.take(k));
            let x = t.skip(k);
            assert(x[0] == s[k]);
            lemma_mantissa_scan(s, k);
            assert(me == k);
            let v = unsigned_part(x.skip(1));
            let j0 = exponent_digits_at(s);
            assert(x.skip(1) =~= s.subrange(k + 1, m));
            assert(v =~= s.subrange(j0, m));
            lemma_digits_end(s, j0);
            assert(all_dec(s.subrange(j0, m)));
            assert(digits_end(s, j0) >= m);
        }
    }
}

/// The scanner finds the longest leading number.
proof fn lemma_scan_longest(s: Seq<char>)
    ensures
        longest_number_prefix(s, scan_len(s)),
{
    lemma_scan_is_number(s);
    assert forall|m: int| scan_len(s) < m <= s.len() implies !is_number(#[trigger] s.take(m)) by {
        lemma_scan_maximal(s, m);
    }
}

proof fn lemma_longest_unique(s: Seq<char>, a: int, b: int)
    requires
        longest_number_prefix(s, a),
        longest_number_prefix(s, b),
    ensures
        a == b,
{
    if a < b {
        assert(!is_number(s.take(b)));
    } else if b < a {
        assert(!is_number(s.take(a)));
    }
}

/// End of the run of ASCII digits starting at `i`.
pub open spec fn digits_end(s: Seq<char>, i: int) -> int
    decreases s.len() - i,
{
    if i < 0 || i >= s.len() {
        i
    } else if '0' <= s[i] && s[i] <= '9' {
        digits_end(s, i + 1)
    } else {
        i
    }
}

/// Hexadecimal or binary entry: the 64-bit pattern its digits spell, digit
/// by digit with wrap-around; characters that are no digit of the base
/// are skipped.
pub open spec fn int_value(s: Seq<char>, radix: u64) -> u64
    decreases s.len(),
{
    if s.len() == 0 {
        0
    } else {
        let acc = int_value(s.drop_last(), radix);
        match spec_digit_of(s.last()) {
            Some(d) => if d < radix {
                acc.wrapping_mul(radix).wrapping_add(d as u64)
            } else {
                acc
            },
            None => acc,
        }
    }
}

/// What the display shows can be typed back: the digits of any 64-bit
/// pattern, read as an entry in the same base, give that pattern again.
pub proof fn lemma_digits_read_back(u: u64, radix: u64)
    requires
        radix == 2 || radix == 10 || radix == 16,
    ensures
        int_value(base_digits(u as nat, radix as nat), radix) == u,
    decreases u,
{
    if u < radix {
        lemma_sym_digit(u as int);
        let s = base_digits(u as nat, radix as nat);
        assert(s == seq![sym(u as int)]);
        assert(s.drop_last() =~= Seq::<char>::empty());
        assert(int_value(s.drop_last(), radix) == 0);
        assert((0nat * radix as nat) % 0x1_0000_0000_0000_0000nat == 0) by (nonlinear_arith);
    } else {
        let q: u64 = u / radix;
        let d: u64 = u % radix;
        assert(q < u) by (nonlinear_arith)
            requires
                radix >= 2,
                u >= radix,
                q == u / radix,
        ;
        lemma_digits_read_back(q, radix);
        lemma_sym_digit(d as int);
        let s = base_digits(u as nat, radix as nat);
        assert(s == base_digits(q as nat, radix as nat).push(sym(d as int)));
        assert(s.drop_last() =~= base_digits(q as nat, radix as nat));
        assert(q * radix + d == u) by (nonlinear_arith)
            requires
                radix >= 2,
                q == u / radix,
                d == u % radix,
        ;
        assert((q as nat * radix as nat) % 0x1_0000_0000_0000_0000nat == q * radix) by (nonlinear_arith)
            requires
                q * radix + d == u,
                d >= 0,
                u < 0x1_0000_0000_0000_0000,
                q >= 0,
                radix >= 0,
        ;
    }
}

/// A hexadecimal or binary entry: whether it is negative, and its digits'
/// value.
pub open spec fn spec_entry_int(s: Seq<char>, radix: u64) -> (bool, u64) {
    if s.len() > 0 && s[0] == '-' {
        (true, int_value(s.drop_first(), radix))
    } else {
        (false, int_value(s, radix))
    }
}


/// The sign of a hexadecimal or binary entry is its leading `-`, in every
/// base; with the sign put in front of an unsigned entry, the entry reads
/// as negative with the same digits' value. Digits that are not digits of
/// the base are passed over, and each digit of the base multiplies what
/// came before by the base and adds its own value, wrapping at 64 bits.
pub proof fn lemma_entry_int_sign(t: Seq<char>, radix: u64, ch: char)
    requires
        !(t.len() > 0 && t[0] == '-'),
    ensures
        spec_entry_int(t, radix).0 == false,
        spec_entry_int(seq!['-'] + t, radix) == (true, spec_entry_int(t, radix).1),
        spec_entry_int(t.push(ch), radix).1 == match spec_digit_of(ch) {
            Some(d) => if d < radix {
                spec_entry_int(t, radix).1.wrapping_mul(radix).wrapping_add(d as u64)
            } else {
                spec_entry_int(t, radix).1
            },
            None => spec_entry_int(t, radix).1,
        },
        spec_entry_int(Seq::empty(), radix) == (false, 0u64),
{
    assert((seq!['-'] + t).drop_first() =~= t);
    if t.len() > 0 {
        assert(t.push(ch)[0] == t[0]);
    }
    assert(t.push(ch).drop_last() =~= t);
}

// ------------------------------------------------------------ the machine

/// The calculator's state, with values of type `V`.
pub struct CalcCore<V> {
    entry: Vec<char>,
    entering: bool,
    has_exp: bool,
    frames: Vec<Frame<V>>,
    depth: i32,
    acc: V,
    mem: V,
    last_ans: V,
    base: Base,
    angle: AngleMode,
    inv: bool,
    mem_set: bool,
    error: Option<CalcError>,
    history: Vec<String>,
    value_ready: bool,
    op_pending: bool,
}

impl<V> View for CalcCore<V> {
    type V = CoreView<V>;

    closed spec fn view(&self) -> CoreView<V> {
        CoreView {
            entry: self.entry@,
            entering: self.entering,
            has_exp: self.has_exp,
            frames: self.frames@,
            depth: self.depth as int,
            acc: self.acc,
            mem: self.mem,
            last_ans: self.last_ans,
            base: self.base,
            angle: self.angle,
            inv: self.inv,
            mem_set: self.mem_set,
            error: self.error,
            history: self.history@.map_values(|s: String| s@),
            value_ready: self.value_ready,
            op_pending: self.op_pending,
        }
    }
}

/// The machine's invariant: parentheses match the barrier frames, the
/// stack is bounded and precedence-ordered, the entry fits its buffer,
/// and the log keeps at most `HISTORY_MAX` lines.
pub open spec fn core_wf<V>(c: CoreView<V>) -> bool {
    &&& c.depth == count_lparen(c.frames)
    &&& c.frames.len() <= STACK_MAX
    &&& precedence_ordered(c.frames)
    &&& c.entry.len() <= ENTRY_MAX
    &&& c.history.len() <= HISTORY_MAX
}


/// The frames `drain` hands out: every operand frame, top first.
pub open spec fn operand_frames_rev<V>(frames: Seq<Frame<V>>) -> Seq<Frame<V>>
    decreases frames.len(),
{
    if frames.len() == 0 {
        Seq::empty()
    } else if frames.last().op == Op::LParen {
        operand_frames_rev(frames.drop_last())
    } else {
        seq![frames.last()] + operand_frames_rev(frames.drop_last())
    }
}

/// The state after a fresh start, with `zero` as every value.
pub open spec fn initial_view<V>(zero: V) -> CoreView<V> {
    CoreView {
        entry: Seq::empty(),
        entering: false,
        has_exp: false,
        frames: Seq::empty(),
        depth: 0,
        acc: zero,
        mem: zero,
        last_ans: zero,
        base: Base::Dec,
        angle: AngleMode::Deg,
        inv: false,
        mem_set: false,
        error: None,
        history: Seq::empty(),
        value_ready: false,
        op_pending: false,
    }
}

// ------------------------------------------------------------ stack lemmas

proof fn lemma_push_frame<V>(f: Seq<Frame<V>>, x: Frame<V>)
    requires
        precedence_ordered(f),
        f.len() == 0 || !reducible(f.last().op, x.op) || x.op == Op::LParen,
    ensures
        precedence_ordered(f.push(x)),
        count_lparen(f.push(x)) == count_lparen(f) + (if x.op == Op::LParen {
            1nat
        } else {
            0nat
        }),
{
    let g = f.push(x);
    assert(g.drop_last() == f);
    assert(g.last() == x);
    lemma_push_ordered(f, x);
}

/// The empty stack is ordered.
pub proof fn lemma_empty_ordered<V>()
    ensures
        precedence_ordered(Seq::<Frame<V>>::empty()),
{
    reveal(precedence_ordered);
}

/// There are no more barriers than frames.
pub proof fn lemma_count_lparen_bound<V>(f: Seq<Frame<V>>)
    ensures
        count_lparen(f) <= f.len(),
    decreases f.len(),
{
    if f.len() > 0 {
        lemma_count_lparen_bound(f.drop_last());
    }
}

proof fn lemma_push_ordered<V>(f: Seq<Frame<V>>, x: Frame<V>)
    requires
        precedence_ordered(f),
        f.len() == 0 || !reducible(f.last().op, x.op) || x.op == Op::LParen,
    ensures
        precedence_ordered(f.push(x)),
{
    reveal(precedence_ordered);
    let g = f.push(x);
    assert forall|i: int| 0 <= i < g.len() - 1 implies !reducible(
        #[trigger] g[i].op,
        g[i + 1].op,
    ) || g[i + 1].op == Op::LParen by {
        assert(g[i] == f[i]);
        if i < f.len() - 1 {
            assert(g[i + 1] == f[i + 1]);
        } else {
            assert(g[i + 1] == x);
        }
    }
}

#[verifier::spinoff_prover]
#[verifier::rlimit(40)]
proof fn lemma_drop_frame<V>(f: Seq<Frame<V>>)
    requires
        f.len() > 0,
        precedence_ordered(f),
    ensures
        precedence_ordered(f.drop_last()),
        count_lparen(f) == count_lparen(f.drop_last()) + (if f.last().op == Op::LParen {
            1nat
        } else {
            0nat
        }),
{
    reveal(precedence_ordered);
    let g = f.drop_last();
    assert forall|i: int| 0 <= i < g.len() - 1 implies !reducible(
        #[trigger] g[i].op,
        g[i + 1].op,
    ) || g[i + 1].op == Op::LParen by {
        assert(g[i] == f[i] && g[i + 1] == f[i + 1]);
    }
}

// ------------------------------------------------------------ machine

impl<V: Copy> CalcCore<V> {
    pub fn new(zero: V) -> (c: Self)
        ensures
            c@ == initial_view(zero),
            core_wf(c@),
    {
        let c = CalcCore {
            entry: Vec::new(),
            entering: false,
            has_exp: false,
            frames: Vec::new(),
            depth: 0,
            acc: zero,
            mem: zero,
            last_ans: zero,
            base: Base::Dec,
            angle: AngleMode::Deg,
            inv: false,
            mem_set: false,
            error: None,
            history: Vec::new(),
            value_ready: false,
            op_pending: false,
        };
        assert(c@.history =~= Seq::<Seq<char>>::empty());
        proof {
            lemma_empty_ordered::<V>();
        }
        c
    }

    pub fn entering(&self) -> (b: bool)
        ensures
            b == self@.entering,
    {
        self.entering
    }

    pub fn base(&self) -> (b: Base)
        ensures
            b == self@.base,
    {
        self.base
    }

    pub fn angle(&self) -> (a: AngleMode)
        ensures
            a == self@.angle,
    {
        self.angle
    }

    pub fn inv(&self) -> (b: bool)
        ensures
            b == self@.inv,
    {
        self.inv
    }

    pub fn mem_set(&self) -> (b: bool)
        ensures
            b == self@.mem_set,
    {
        self.mem_set
    }

    pub fn error(&self) -> (e: Option<CalcError>)
        ensures
            e == self@.error,
    {
        self.error
    }

    pub fn acc(&self) -> (v: V)
        ensures
            v == self@.acc,
    {
        self.acc
    }

    pub fn mem(&self) -> (v: V)
        ensures
            v == self@.mem,
    {
        self.mem
    }

    pub fn last_ans(&self) -> (v: V)
        ensures
            v == self@.last_ans,
    {
        self.last_ans
    }

    pub fn paren_depth(&self) -> (d: i32)
        ensures
            d == self@.depth,
    {
        self.depth
    }

    pub fn history(&self) -> (h: &Vec<String>)
        ensures
            h@.map_values(|s: String| s@) == self@.history,
    {
        &self.history
    }

    pub fn value_ready(&self) -> (b: bool)
        ensures
            b == self@.value_ready,
    {
        self.value_ready
    }

    pub fn op_pending(&self) -> (b: bool)
        ensures
            b == self@.op_pending,
    {
        self.op_pending
    }

    /// Innermost pending operator, or `NoOp`.
    pub fn pending_op(&self) -> (op: Op)
        ensures
            op == if self@.frames.len() > 0 && self@.frames.last().op != Op::LParen {
                self@.frames.last().op
            } else {
                Op::NoOp
            },
    {
        let n = self.frames.len();
        if n > 0 && self.frames[n - 1].op != Op::LParen {
            self.frames[n - 1].op
        } else {
            Op::NoOp
        }
    }

    /// Stop with an error.
    pub fn fail(&mut self, e: CalcError)
        requires
            core_wf(old(self)@),
        ensures
            final(self)@ == spec_fail(old(self)@, e),
            core_wf(final(self)@),
    {
        self.error = Some(e);
        self.entering = false;
        self.entry.clear();
        self.frames.clear();
        self.depth = 0;
        self.value_ready = false;
        self.op_pending = false;
        assert(self@.entry =~= Seq::<char>::empty());
        assert(self@.frames =~= Seq::<Frame<V>>::empty());
        proof {
            lemma_empty_ordered::<V>();
        }
    }

    /// Consume the entry, `v` being its value.
    pub fn take_value(&mut self, v: V)
        requires
            core_wf(old(self)@),
        ensures
            final(self)@ == spec_take(old(self)@, v),
            core_wf(final(self)@),
    {
        self.acc = v;
        self.entering = false;
        self.entry.clear();
        self.has_exp = false;
        assert(self@.entry =~= Seq::<char>::empty());
    }

    fn entry_begin(&mut self)
        requires
            core_wf(old(self)@),
        ensures
            final(self)@ == after_begin(old(self)@),
            core_wf(final(self)@),
    {
        if !self.entering {
            self.entry.clear();
            self.has_exp = false;
            self.entering = true;
            assert(self@.entry =~= Seq::<char>::empty());
        }
    }

    fn entry_push(&mut self, ch: char)
        requires
            core_wf(old(self)@),
        ensures
            final(self)@ == (CoreView { entry: push_capped(old(self)@.entry, ch), ..old(self)@ }),
            core_wf(final(self)@),
    {
        if self.entry.len() >= ENTRY_MAX {
            return ;
        }
        self.entry.push(ch);
    }

    fn count_digits(&self) -> (n: usize)
        ensures
            n == lead_digits(self@.entry),
    {
        let mut n: usize = 0;
        let mut i: usize = 0;
        while i < self.entry.len()
            invariant
                i <= self.entry@.len(),
                n <= i,
                lead_digits(self.entry@) == n + lead_digits(self.entry@.skip(i as int)),
            decreases self.entry@.len() - i,
        {
            let ch = self.entry[i];
            assert(self.entry@.skip(i as int).drop_first() == self.entry@.skip(i + 1));
            if ch == 'e' || ch == 'E' {
                return n;
            }
            if digit_of(ch).is_some() {
                n += 1;
            }
            i += 1;
        }
        n
    }

    fn find_e(&self) -> (p: usize)
        ensures
            p == first_e(self@.entry),
            p <= self@.entry.len(),
    {
        let mut i: usize = 0;
        while i < self.entry.len()
            invariant
                i <= self.entry@.len(),
                first_e(self.entry@) == i + first_e(self.entry@.skip(i as int)),
            decreases self.entry@.len() - i,
        {
            let ch = self.entry[i];
            assert(self.entry@.skip(i as int).drop_first() == self.entry@.skip(i + 1));
            if ch == 'e' || ch == 'E' {
                return i;
            }
            i += 1;
        }
        i
    }

    fn count_exp_digits(&self) -> (n: usize)
        ensures
            n == exp_digits(self@.entry),
    {
        let p = self.find_e();
        let start = if p < self.entry.len() {
            p + 1
        } else {
            p
        };
        let mut n: usize = 0;
        let mut i: usize = start;
        while i < self.entry.len()
            invariant
                start <= i <= self.entry@.len(),
                start == exp_start(self.entry@),
                n <= i,
                exp_digits(self.entry@) == n + digit_count(self.entry@.skip(i as int)),
            decreases self.entry@.len() - i,
        {
            assert(self.entry@.skip(i as int).drop_first() == self.entry@.skip(i + 1));
            if digit_of(self.entry[i]).is_some() {
                n += 1;
            }
            i += 1;
        }
        n
    }

    fn entry_is(&self, a: char) -> (b: bool)
        ensures
            b == (self@.entry == seq![a]),
    {
        let r = self.entry.len() == 1 && self.entry[0] == a;
        assert(self@.entry.len() == 1 && self@.entry[0] == a ==> self@.entry =~= seq![a]);
        r
    }

    fn entry_is2(&self, a: char, b: char) -> (r: bool)
        ensures
            r == (self@.entry == seq![a, b]),
    {
        let r = self.entry.len() == 2 && self.entry[0] == a && self.entry[1] == b;
        assert(self@.entry.len() == 2 && self@.entry[0] == a && self@.entry[1] == b
            ==> self@.entry =~= seq![a, b]);
        r
    }

    /// Type digit `d` (see `spec_digit`).
    pub fn digit(&mut self, d: u32)
        requires
            core_wf(old(self)@),
        ensures
            final(self)@ == spec_digit(old(self)@, d as int),
            core_wf(final(self)@),
    {
        if self.error.is_some() || (d as i64) >= self.base.radix() {
            return ;
        }
        self.entry_begin();
        if self.has_exp {
            if self.count_exp_digits() >= 2 {
                return ;
            }
        } else if self.count_digits() >= max_digits(self.base) {
            return ;
        }
        if !self.has_exp && self.entry_is('0') {
            self.entry.clear();
            assert(self@.entry =~= Seq::<char>::empty());
        } else if !self.has_exp && self.entry_is2('-', '0') {
            self.entry.truncate(1);
            assert(self@.entry =~= seq!['-']);
        }
        self.entry_push(sym_of(d));
        self.value_ready = true;
        self.op_pending = false;
    }

    fn entry_has_point(&self) -> (b: bool)
        ensures
            b == self@.entry.contains('.'),
    {
        crate::text::contains_char(self.entry.as_slice(), '.')
    }

    /// Type the decimal point (see `spec_point`).
    pub fn point(&mut self)
        requires
            core_wf(old(self)@),
        ensures
            final(self)@ == spec_point(old(self)@),
            core_wf(final(self)@),
    {
        if self.error.is_some() || self.base != Base::Dec {
            return ;
        }
        self.entry_begin();
        if self.has_exp || self.entry_has_point() {
            return ;
        }
        if self.entry.len() == 0 || self.entry_is('-') {
            self.entry_push('0');
        }
        self.entry_push('.');
        self.value_ready = true;
        self.op_pending = false;
    }

    /// Start the exponent (see `spec_ee`).
    pub fn ee(&mut self)
        requires
            core_wf(old(self)@),
        ensures
            final(self)@ == spec_ee(old(self)@),
            core_wf(final(self)@),
    {
        if self.error.is_some() || self.base != Base::Dec {
            return ;
        }
        self.entry_begin();
        if self.has_exp {
            return ;
        }
        if self.entry.len() == 0 || self.entry_is('-') {
            self.entry_push('1');
        }
        self.entry_push('e');
        self.has_exp = true;
        self.value_ready = true;
        self.op_pending = false;
    }

    fn toggle_minus_at(&mut self, at: usize)
        requires
            core_wf(old(self)@),
            at <= old(self)@.entry.len(),
        ensures
            final(self)@ == (CoreView { entry: toggle_minus(old(self)@.entry, at as int), ..old(self)@ }),
            core_wf(final(self)@),
    {
        if at < self.entry.len() && self.entry[at] == '-' {
            self.entry.remove(at);
        } else if self.entry.len() < ENTRY_MAX {
            self.entry.insert(at, '-');
        }
    }

    /// +/- (see `spec_sign`); `neg` is the shown value negated.
    pub fn sign(&mut self, neg: V)
        requires
            core_wf(old(self)@),
        ensures
            final(self)@ == spec_sign(old(self)@, neg),
            core_wf(final(self)@),
    {
        if self.error.is_some() {
            return ;
        }
        if self.entering && self.has_exp {
            let p = self.find_e();
            let at = if p < self.entry.len() {
                p + 1
            } else {
                p
            };
            self.toggle_minus_at(at);
            return ;
        }
        if self.entering {
            self.toggle_minus_at(0);
            return ;
        }
        self.acc = neg;
        self.value_ready = true;
    }

    /// DEL (see `spec_backspace`).
    pub fn backspace(&mut self, zero: V)
        requires
            core_wf(old(self)@),
        ensures
            final(self)@ == spec_backspace(old(self)@, zero),
            core_wf(final(self)@),
    {
        if self.error.is_some() {
            return ;
        }
        if !self.entering {
            self.acc = zero;
            self.value_ready = false;
            return ;
        }
        if self.entry.len() == 0 {
            self.entering = false;
            self.acc = zero;
            return ;
        }
        let last = self.entry.pop().unwrap();
        if last == 'e' || last == 'E' {
            self.has_exp = false;
        }
        if self.entry.len() == 0 || self.entry_is('-') {
            self.entry.clear();
            self.entering = false;
            self.acc = zero;
            assert(self@.entry =~= Seq::<char>::empty());
        }
    }

    /// C (see `spec_clear_entry`).
    pub fn clear_entry(&mut self, zero: V)
        requires
            core_wf(old(self)@),
        ensures
            final(self)@ == spec_clear_entry(old(self)@, zero),
            core_wf(final(self)@),
    {
        self.error = None;
        self.entry.clear();
        self.entering = false;
        self.has_exp = false;
        self.acc = zero;
        self.value_ready = false;
        assert(self@.entry =~= Seq::<char>::empty());
    }

    /// AC (see `spec_all_clear`).
    pub fn all_clear(&mut self, zero: V)
        requires
            core_wf(old(self)@),
        ensures
            final(self)@ == spec_all_clear(old(self)@, zero),
            core_wf(final(self)@),
    {
        self.clear_entry(zero);
        self.frames.clear();
        self.depth = 0;
        self.op_pending = false;
        self.inv = false;
        assert(self@.frames =~= Seq::<Frame<V>>::empty());
        proof {
            lemma_empty_ordered::<V>();
        }
    }

    /// Pop a dangling operator's frame, returning its operand.
    pub fn pop_dangling(&mut self) -> (r: Option<V>)
        requires
            core_wf(old(self)@),
        ensures
            dangling(old(self)@) ==> r == Some(old(self)@.frames.last().value) && final(self)@
                == (CoreView { frames: old(self)@.frames.drop_last(), ..old(self)@ }),
            !dangling(old(self)@) ==> r is None && final(self)@ == old(self)@,
            core_wf(final(self)@),
    {
        let n = self.frames.len();
        if self.op_pending && n > 0 && self.frames[n - 1].op != Op::LParen {
            proof {
                lemma_drop_frame(self@.frames);
            }
            let f = self.frames.pop().unwrap();
            Some(f.value)
        } else {
            None
        }
    }

    /// Pop the frames that bind at least as tightly as `op`, top first; the
    /// caller applies them in that order.
    pub fn take_reducible(&mut self, op: Op) -> (popped: Vec<Frame<V>>)
        requires
            core_wf(old(self)@),
        ensures
            ({
                let f = old(self)@.frames;
                let n = reduce_count(f, op);
                &&& n <= f.len()
                &&& popped@ == f.skip(f.len() - n).reverse()
                &&& final(self)@ == (CoreView { frames: f.take(f.len() - n), ..old(self)@ })
            }),
            reduce_count(final(self)@.frames, op) == 0,
            core_wf(final(self)@),
    {
        let ghost f = self@.frames;
        let mut popped: Vec<Frame<V>> = Vec::new();
        let mut k: usize = 0;
        while self.frames.len() > 0 && reducible_exec(self.frames[self.frames.len() - 1].op, op)
            invariant
                k <= f.len() <= STACK_MAX,
                self@ == (CoreView { frames: f.take(f.len() - k), ..old(self)@ }),
                popped@ == f.skip(f.len() - k).reverse(),
                reduce_count(f, op) == k + reduce_count(self@.frames, op),
                core_wf(self@),
            decreases self@.frames.len(),
        {
            let ghost cur = self@.frames;
            proof {
                lemma_drop_frame(cur);
            }
            let top = self.frames.pop().unwrap();
            popped.push(top);
            k += 1;
            assert(cur.drop_last() =~= f.take(f.len() - k));
            assert(f.skip(f.len() - k).reverse() =~= f.skip(f.len() - (k - 1)).reverse().push(
                cur.last(),
            ));
        }
        popped
    }

    /// Push operator `op` with its left operand `rhs` (the stack must hold
    /// nothing that binds at least as tightly: see `take_reducible`), or
    /// stop with `TooDeep` when the stack is full.
    pub fn push_operator(&mut self, rhs: V, op: Op)
        requires
            core_wf(old(self)@),
            reduce_count(old(self)@.frames, op) == 0,
            op != Op::LParen,
        ensures
            old(self)@.frames.len() >= STACK_MAX ==> final(self)@ == spec_fail(
                old(self)@,
                CalcError::TooDeep,
            ),
            old(self)@.frames.len() < STACK_MAX ==> final(self)@ == (CoreView {
                frames: old(self)@.frames.push(Frame { value: rhs, op }),
                acc: rhs,
                entering: false,
                entry: Seq::empty(),
                has_exp: false,
                op_pending: true,
                value_ready: false,
                ..old(self)@
            }),
            core_wf(final(self)@),
    {
        if self.frames.len() >= STACK_MAX {
            self.fail(CalcError::TooDeep);
            return ;
        }
        proof {
            lemma_push_frame(self@.frames, Frame { value: rhs, op });
        }
        self.frames.push(Frame { value: rhs, op });
        self.acc = rhs;
        self.entering = false;
        self.entry.clear();
        self.has_exp = false;
        self.op_pending = true;
        self.value_ready = false;
        assert(self@.entry =~= Seq::<char>::empty());
    }

    /// A number directly before `(` means multiplication: `2(3+4)`.
    pub fn implicit_mul(&self) -> (b: bool)
        ensures
            b == (self@.value_ready && !self@.op_pending),
    {
        self.value_ready && !self.op_pending
    }

    /// Open a parenthesis, or stop with `TooDeep` when the stack is full.
    pub fn open_paren(&mut self, zero: V)
        requires
            core_wf(old(self)@),
        ensures
            old(self)@.frames.len() >= STACK_MAX ==> final(self)@ == spec_fail(
                old(self)@,
                CalcError::TooDeep,
            ),
            old(self)@.frames.len() < STACK_MAX ==> final(self)@ == (CoreView {
                frames: old(self)@.frames.push(Frame { value: zero, op: Op::LParen }),
                depth: old(self)@.depth + 1,
                entering: false,
                entry: Seq::empty(),
                acc: zero,
                op_pending: false,
                value_ready: false,
                ..old(self)@
            }),
            core_wf(final(self)@),
    {
        if self.frames.len() >= STACK_MAX {
            self.fail(CalcError::TooDeep);
            return ;
        }
        proof {
            lemma_push_frame(self@.frames, Frame { value: zero, op: Op::LParen });
            lemma_count_lparen_bound(self@.frames);
        }
        self.frames.push(Frame { value: zero, op: Op::LParen });
        self.depth = self.depth + 1;
        self.entering = false;
        self.entry.clear();
        self.acc = zero;
        self.op_pending = false;
        self.value_ready = false;
        assert(self@.entry =~= Seq::<char>::empty());
    }

    /// `)`: pop the operands of the innermost parenthesis, top first (the
    /// caller applies them), and its barrier.
    pub fn close_paren(&mut self) -> (popped: Vec<Frame<V>>)
        requires
            core_wf(old(self)@),
            old(self)@.depth > 0,
        ensures
            ({
                let f = old(self)@.frames;
                let n = reduce_count(f, Op::LParen);
                &&& n < f.len()
                &&& popped@ == f.skip(f.len() - n).reverse()
                &&& f[f.len() - n - 1].op == Op::LParen
                &&& final(self)@ == (CoreView {
                    frames: f.take(f.len() - n - 1),
                    depth: old(self)@.depth - 1,
                    ..old(self)@
                })
            }),
            core_wf(final(self)@),
    {
        let ghost f = self@.frames;
        let popped = self.take_reducible(Op::LParen);
        let ghost rest = self@.frames;
        proof {
            lemma_reduce_keeps_lparens(f, Op::LParen);
            if rest.len() > 0 {
                assert(!reducible(rest.last().op, Op::LParen));
            }
        }
        let n = self.frames.len();
        if n > 0 && self.frames[n - 1].op == Op::LParen {
            proof {
                lemma_drop_frame(rest);
            }
            self.frames.pop();
        }
        assert(self@.frames =~= f.take(f.len() - reduce_count(f, Op::LParen) - 1));
        self.depth = self.depth - 1;
        popped
    }

    /// `=`: every operand frame, top first (the caller applies them all),
    /// leaving the stack empty with every parenthesis closed.
    pub fn drain(&mut self) -> (popped: Vec<Frame<V>>)
        requires
            core_wf(old(self)@),
        ensures
            popped@ == operand_frames_rev(old(self)@.frames),
            final(self)@ == (CoreView { frames: Seq::empty(), depth: 0, ..old(self)@ }),
            core_wf(final(self)@),
    {
        let ghost f = self@.frames;
        let mut popped: Vec<Frame<V>> = Vec::new();
        while self.frames.len() > 0
            invariant
                core_wf(self@),
                self@ == (CoreView { frames: self@.frames, depth: self@.depth, ..old(self)@ }),
                operand_frames_rev(f) == popped@ + operand_frames_rev(self@.frames),
            decreases self@.frames.len(),
        {
            let ghost cur = self@.frames;
            proof {
                lemma_drop_frame(cur);
            }
            let top = self.frames.pop().unwrap();
            if top.op == Op::LParen {
                self.depth = self.depth - 1;
            } else {
                let ghost before = popped@;
                popped.push(top);
                assert(before + (seq![cur.last()] + operand_frames_rev(cur.drop_last())) =~= popped@
                    + operand_frames_rev(cur.drop_last()));
            }
        }
        assert(popped@ + operand_frames_rev(self@.frames) =~= popped@);
        self.depth = 0;
        assert(self@.frames =~= Seq::<Frame<V>>::empty());
        proof {
            lemma_empty_ordered::<V>();
        }
        popped
    }

    /// The expression's frames for the log: the stack without a dangling
    /// operator, bottom first.
    pub fn history_frames(&self) -> (r: Vec<Frame<V>>)
        ensures
            r@ == spec_history_frames(self@),
    {
        let n = self.frames.len();
        let keep = if self.op_pending && n > 0 && self.frames[n - 1].op != Op::LParen {
            n - 1
        } else {
            n
        };
        let mut r: Vec<Frame<V>> = Vec::new();
        let mut i: usize = 0;
        while i < keep
            invariant
                keep <= n == self@.frames.len(),
                i <= keep,
                r@ == self@.frames.take(i as int),
            decreases keep - i,
        {
            r.push(Frame { value: self.frames[i].value, op: self.frames[i].op });
            assert(r@ =~= self@.frames.take(i + 1));
            i += 1;
        }
        assert(self@.frames.take(n as int) == self@.frames);
        r
    }
}

impl<V: Copy> CalcCore<V> {
    /// After `)`: its value `v` is shown and counts as an operand.
    pub fn finish_paren(&mut self, v: V)
        requires
            core_wf(old(self)@),
        ensures
            final(self)@ == (CoreView {
                acc: v,
                entering: false,
                entry: Seq::empty(),
                op_pending: false,
                value_ready: true,
                ..old(self)@
            }),
            core_wf(final(self)@),
    {
        self.acc = v;
        self.entering = false;
        self.entry.clear();
        self.op_pending = false;
        self.value_ready = true;
        assert(self@.entry =~= Seq::<char>::empty());
    }

    /// After `=`: the result `v` is shown and becomes ANS; a following `(`
    /// starts a new expression.
    pub fn finish_equals(&mut self, v: V)
        requires
            core_wf(old(self)@),
            old(self)@.frames.len() == 0,
        ensures
            final(self)@ == (CoreView {
                depth: 0,
                acc: v,
                last_ans: v,
                entering: false,
                entry: Seq::empty(),
                op_pending: false,
                value_ready: false,
                ..old(self)@
            }),
            core_wf(final(self)@),
    {
        proof {
            lemma_count_lparen_bound(self@.frames);
        }
        self.depth = 0;
        self.acc = v;
        self.last_ans = v;
        self.entering = false;
        self.entry.clear();
        self.op_pending = false;
        self.value_ready = false;
        assert(self@.entry =~= Seq::<char>::empty());
    }

    /// Append the line `expr = result` to the log, dropping the oldest line
    /// beyond `HISTORY_MAX`.
    pub fn record_history(&mut self, parts: &[HistPart], open_parens: i32, last: &str, result: &str)
        requires
            core_wf(old(self)@),
        ensures
            final(self)@ == (CoreView {
                history: history_after(
                    old(self)@.history,
                    hist_line(
                        parts@.map_values(|p: HistPart| p.view()),
                        open_parens as int,
                        last@,
                        result@,
                    ),
                ),
                ..old(self)@
            }),
            core_wf(final(self)@),
    {
        let ghost pv = parts@.map_values(|p: HistPart| p.view());
        let mut expr: Vec<char> = Vec::new();
        let mut i: usize = 0;
        while i < parts.len()
            invariant
                pv == parts@.map_values(|p: HistPart| p.view()),
                i <= parts@.len(),
                expr@ == hist_prefix(pv.take(i as int)),
            decreases parts@.len() - i,
        {
            assert(pv.take(i + 1).drop_last() == pv.take(i as int));
            assert(pv[i as int] == parts@[i as int].view());
            let ghost e0 = expr@;
            match &parts[i] {
                HistPart::Open => {
                    let n = expr.len();
                    if n > 0 && expr[n - 1] != ' ' {
                        expr.push(' ');
                    }
                    expr.push('(');
                },
                HistPart::Operand(t, op) => {
                    let n = expr.len();
                    if n > 0 && expr[n - 1] != '(' {
                        expr.push(' ');
                    }
                    let ghost e1 = expr@;
                    push_str(&mut expr, t.as_str());
                    expr.push(' ');
                    push_str(&mut expr, op_symbol(*op));
                    assert(expr@ =~= e1 + t@ + seq![' '] + spec_op_symbol(*op));
                },
            }
            i += 1;
        }
        assert(pv.take(pv.len() as int) == pv);
        let n = expr.len();
        if n > 0 && expr[n - 1] != '(' {
            expr.push(' ');
        }
        let ghost e1 = expr@;
        push_str(&mut expr, last);
        let ghost e2 = expr@;
        let mut k: i32 = 0;
        while k < open_parens
            invariant
                0 <= k,
                k <= open_parens || open_parens < 0,
                open_parens < 0 ==> k == 0,
                expr@ == e2 + closers(k as int),
            decreases open_parens - k,
        {
            expr.push(')');
            k += 1;
            assert(expr@ =~= e2 + closers(k as int));
        }
        assert(expr@ =~= e2 + closers(open_parens as int));
        push_str(&mut expr, " = ");
        push_str(&mut expr, result);
        assert(expr@ =~= hist_line(pv, open_parens as int, last@, result@));
        let line = chars_to_string(expr.as_slice());
        let ghost h0 = self@.history;
        self.history.push(line);
        assert(self@.history =~= h0.push(expr@));
        if self.history.len() > HISTORY_MAX {
            self.history.remove(0);
            assert(self@.history =~= h0.push(expr@).drop_first());
        }
    }

    /// A unary function's result `v` is shown and counts as an operand.
    pub fn set_result(&mut self, v: V)
        requires
            core_wf(old(self)@),
        ensures
            final(self)@ == (CoreView { acc: v, value_ready: true, op_pending: false, ..old(self)@ }),
            core_wf(final(self)@),
    {
        self.acc = v;
        self.value_ready = true;
        self.op_pending = false;
    }

    /// Show `v` as a new operand (a negated or converted value).
    pub fn set_value(&mut self, v: V)
        requires
            core_wf(old(self)@),
        ensures
            final(self)@ == (CoreView { acc: v, value_ready: true, ..old(self)@ }),
            core_wf(final(self)@),
    {
        self.acc = v;
        self.value_ready = true;
    }

    /// Replace the shown value, nothing else.
    pub fn set_acc(&mut self, v: V)
        requires
            core_wf(old(self)@),
        ensures
            final(self)@ == (CoreView { acc: v, ..old(self)@ }),
            core_wf(final(self)@),
    {
        self.acc = v;
    }

    /// A constant replaces whatever was being typed.
    pub fn konst(&mut self, v: V)
        requires
            core_wf(old(self)@),
        ensures
            old(self)@.error is Some ==> final(self)@ == old(self)@,
            old(self)@.error is None ==> final(self)@ == (CoreView {
                entering: false,
                entry: Seq::empty(),
                has_exp: false,
                acc: v,
                value_ready: true,
                op_pending: false,
                ..old(self)@
            }),
            core_wf(final(self)@),
    {
        if self.error.is_some() {
            return ;
        }
        self.entering = false;
        self.entry.clear();
        self.has_exp = false;
        self.acc = v;
        self.value_ready = true;
        self.op_pending = false;
        assert(self@.entry =~= Seq::<char>::empty());
    }

    /// Switch the number base; the caller freezes the entry first.
    pub fn set_base(&mut self, b: Base)
        requires
            core_wf(old(self)@),
        ensures
            final(self)@ == (CoreView { base: b, ..old(self)@ }),
            core_wf(final(self)@),
    {
        self.base = b;
    }

    pub fn cycle_angle(&mut self)
        requires
            core_wf(old(self)@),
        ensures
            final(self)@ == (CoreView { angle: spec_next_angle(old(self)@.angle), ..old(self)@ }),
            core_wf(final(self)@),
    {
        self.angle = crate::calc::next_angle(self.angle);
    }

    pub fn toggle_inv(&mut self)
        requires
            core_wf(old(self)@),
        ensures
            final(self)@ == (CoreView { inv: !old(self)@.inv, ..old(self)@ }),
            core_wf(final(self)@),
    {
        self.inv = !self.inv;
    }

    pub fn set_inv(&mut self, on: bool)
        requires
            core_wf(old(self)@),
        ensures
            final(self)@ == (CoreView { inv: on, ..old(self)@ }),
            core_wf(final(self)@),
    {
        self.inv = on;
    }

    /// STO: `cur` is the current value.
    pub fn mem_store(&mut self, cur: V)
        requires
            core_wf(old(self)@),
        ensures
            old(self)@.error is Some ==> final(self)@ == old(self)@,
            old(self)@.error is None ==> final(self)@ == (CoreView {
                mem: cur,
                mem_set: true,
                ..old(self)@
            }),
            core_wf(final(self)@),
    {
        if self.error.is_some() {
            return ;
        }
        self.mem = cur;
        self.mem_set = true;
    }

    /// Record `v` as the memory's new content (M+ after its sum).
    pub fn set_mem(&mut self, v: V)
        requires
            core_wf(old(self)@),
        ensures
            final(self)@ == (CoreView { mem: v, mem_set: true, ..old(self)@ }),
            core_wf(final(self)@),
    {
        self.mem = v;
        self.mem_set = true;
    }

    fn show_stored(&mut self, v: V)
        requires
            core_wf(old(self)@),
        ensures
            final(self)@ == (CoreView {
                entering: false,
                entry: Seq::empty(),
                acc: v,
                value_ready: true,
                op_pending: false,
                ..old(self)@
            }),
            core_wf(final(self)@),
    {
        self.entering = false;
        self.entry.clear();
        self.acc = v;
        self.value_ready = true;
        self.op_pending = false;
        assert(self@.entry =~= Seq::<char>::empty());
    }

    /// RCL: the memory becomes the shown operand.
    pub fn mem_recall(&mut self)
        requires
            core_wf(old(self)@),
        ensures
            old(self)@.error is Some ==> final(self)@ == old(self)@,
            old(self)@.error is None ==> final(self)@ == (CoreView {
                entering: false,
                entry: Seq::empty(),
                acc: old(self)@.mem,
                value_ready: true,
                op_pending: false,
                ..old(self)@
            }),
            core_wf(final(self)@),
    {
        if self.error.is_some() {
            return ;
        }
        let m = self.mem;
        self.show_stored(m);
    }

    /// ANS: the last result becomes the shown operand.
    pub fn recall_ans(&mut self)
        requires
            core_wf(old(self)@),
        ensures
            old(self)@.error is Some ==> final(self)@ == old(self)@,
            old(self)@.error is None ==> final(self)@ == (CoreView {
                entering: false,
                entry: Seq::empty(),
                acc: old(self)@.last_ans,
                value_ready: true,
                op_pending: false,
                ..old(self)@
            }),
            core_wf(final(self)@),
    {
        if self.error.is_some() {
            return ;
        }
        let a = self.last_ans;
        self.show_stored(a);
    }

    /// MX: exchange the memory with the current value `cur`.
    pub fn mem_exchange(&mut self, cur: V)
        requires
            core_wf(old(self)@),
        ensures
            old(self)@.error is Some ==> final(self)@ == old(self)@,
            old(self)@.error is None ==> final(self)@ == (CoreView {
                entering: false,
                entry: Seq::empty(),
                acc: old(self)@.mem,
                mem: cur,
                mem_set: true,
                value_ready: true,
                op_pending: false,
                ..old(self)@
            }),
            core_wf(final(self)@),
    {
        if self.error.is_some() {
            return ;
        }
        let m = self.mem;
        self.show_stored(m);
        self.mem = cur;
        self.mem_set = true;
    }

    /// MC.
    pub fn mem_clear(&mut self, zero: V)
        requires
            core_wf(old(self)@),
        ensures
            final(self)@ == (CoreView { mem: zero, mem_set: false, ..old(self)@ }),
            core_wf(final(self)@),
    {
        self.mem = zero;
        self.mem_set = false;
    }

    /// The entry as typed.
    pub fn entry_text(&self) -> (s: String)
        ensures
            s@ == self@.entry,
    {
        chars_to_string(self.entry.as_slice())
    }

    /// A hexadecimal or binary entry's sign and 64-bit digit value.
    pub fn entry_int(&self) -> (r: (bool, u64))
        ensures
            r == spec_entry_int(self@.entry, spec_radix(self@.base) as u64),
    {
        let radix = self.base.radix() as u64;
        let (neg, start) = if self.entry.len() > 0 && self.entry[0] == '-' {
            (true, 1usize)
        } else {
            (false, 0usize)
        };
        let ghost ds = self@.entry.skip(start as int);
        assert(start == 0 ==> ds == self@.entry);
        let mut u: u64 = 0;
        let mut i: usize = start;
        while i < self.entry.len()
            invariant
                start <= i <= self@.entry.len(),
                ds == self@.entry.skip(start as int),
                u == int_value(ds.take(i - start), radix),
            decreases self@.entry.len() - i,
        {
            assert(ds.take(i + 1 - start).drop_last() == ds.take(i - start));
            assert(ds.take(i + 1 - start).last() == self@.entry[i as int]);
            match digit_of(self.entry[i]) {
                Some(d) => {
                    if (d as u64) < radix {
                        u = u.wrapping_mul(radix).wrapping_add(d as u64);
                    }
                },
                None => {},
            }
            i += 1;
        }
        assert(ds.take(self@.entry.len() - start) == ds);
        assert(start == 1 ==> ds == self@.entry.drop_first());
        (neg, u)
    }

    /// The decimal entry's longest leading part that reads as a number.
    pub fn float_prefix_len(&self) -> (n: usize)
        ensures
            n == spec_float_prefix_len(self@.entry),
            n <= self@.entry.len(),
    {
        float_prefix_len(self.entry.as_slice())
    }

    /// The entry as the display shows it while typing: as typed in decimal,
    /// grouped and upper-cased otherwise; nothing when not typing.
    pub fn entry_display(&self) -> (r: Option<String>)
        ensures
            !(self@.entering && self@.entry.len() > 0) ==> r is None,
            (self@.entering && self@.entry.len() > 0) ==> r is Some,
            r matches Some(s) ==> s@ == if self@.base == Base::Dec {
                self@.entry
            } else {
                grouped(
                    ascii_upper(self@.entry),
                    if self@.base == Base::Hex {
                        4nat
                    } else {
                        8nat
                    },
                )
            },
    {
        if !(self.entering && self.entry.len() > 0) {
            return None;
        }
        let t = chars_to_string(self.entry.as_slice());
        if self.base == Base::Dec {
            Some(t)
        } else {
            let grp: usize = if self.base == Base::Hex {
                4
            } else {
                8
            };
            Some(crate::calc::fmt_entry_grouped(t.as_str(), grp))
        }
    }
}

fn digits_end_exec(s: &[char], i: usize) -> (j: usize)
    requires
        i <= s@.len(),
    ensures
        j == digits_end(s@, i as int),
        i <= j <= s@.len(),
{
    let mut j = i;
    while j < s.len() && '0' <= s[j] && s[j] <= '9'
        invariant
            i <= j <= s@.len(),
            digits_end(s@, i as int) == digits_end(s@, j as int),
        decreases s@.len() - j,
    {
        j += 1;
    }
    j
}

/// The length of the longest leading part of `s` that reads as a number
/// (see `spec_float_prefix_len`).
pub fn float_prefix_len(s: &[char]) -> (n: usize)
    ensures
        n == spec_float_prefix_len(s@),
        n <= s@.len(),
{
    let n = scan_prefix(s);
    proof {
        lemma_scan_longest(s@);
        lemma_longest_unique(s@, n as int, spec_float_prefix_len(s@));
    }
    n
}

fn scan_prefix(s: &[char]) -> (n: usize)
    ensures
        n == scan_len(s@),
        n <= s@.len(),
{
    let len = s.len();
    let i0: usize = if len > 0 && (s[0] == '-' || s[0] == '+') {
        1
    } else {
        0
    };
    let int_end = digits_end_exec(s, i0);
    let int_digits = int_end - i0;
    let mut mant_end = int_end;
    let mut frac_digits: usize = 0;
    if int_end < len && s[int_end] == '.' {
        let fe = digits_end_exec(s, int_end + 1);
        if !(int_digits == 0 && fe - (int_end + 1) == 0) {
            mant_end = fe;
            frac_digits = fe - (int_end + 1);
        }
    }
    if int_digits == 0 && frac_digits == 0 {
        return 0;
    }
    if mant_end < len && (s[mant_end] == 'e' || s[mant_end] == 'E') {
        let j0 = if mant_end + 1 < len && (s[mant_end + 1] == '-' || s[mant_end + 1] == '+') {
            mant_end + 2
        } else {
            mant_end + 1
        };
        let je = digits_end_exec(s, j0);
        if je > j0 {
            return je;
        }
    }
    mant_end
}

pub fn reducible_exec(top: Op, op: Op) -> (b: bool)
    ensures
        b == reducible(top, op),
{
    top != Op::LParen && prec(top) >= prec(op) && !(prec(top) == prec(op) && right_assoc(op))
}

/// Every frame `)` pops is an operand frame: the parenthesis count is kept.
proof fn lemma_reduce_keeps_lparens<V>(f: Seq<Frame<V>>, op: Op)
    ensures
        reduce_count(f, op) <= f.len(),
        count_lparen(f.take(f.len() - reduce_count(f, op))) == count_lparen(f),
        f.len() - reduce_count(f, op) > 0 ==> !reducible(
            f[f.len() - reduce_count(f, op) - 1].op,
            op,
        ),
    decreases f.len(),
{
    if f.len() > 0 && reducible(f.last().op, op) {
        lemma_reduce_keeps_lparens(f.drop_last(), op);
        let g = f.drop_last();
        assert(g.take(g.len() - reduce_count(g, op)) == f.take(f.len() - reduce_count(f, op)));
    } else {
        assert(f.take(f.len() as int) == f);
    }
}

} // verus!
