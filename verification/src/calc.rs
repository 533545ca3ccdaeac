//! The calculator's vocabulary and its exact, integer-valued pieces: number
//! bases, operators and their precedence, digits, the two's-complement
//! rendering used by the hexadecimal and binary views, and the bitwise
//! operators.

use vstd::prelude::*;
use crate::text::{chars_to_string, str_chars, sub_chars};

verus! {

broadcast use vstd::seq_lib::group_seq_properties;

/// Number base for entry and display.
#[derive(Clone, Copy, PartialEq, Eq, Debug, Structural)]
pub enum Base {
    Dec,
    Hex,
    Bin,
}

/// Angle unit used by the trigonometric functions.
#[derive(Clone, Copy, PartialEq, Eq, Debug, Structural)]
pub enum AngleMode {
    Deg,
    Rad,
    Grad,
}

/// Binary operators, listed low precedence first (see `prec`).
#[derive(Clone, Copy, PartialEq, Eq, Debug, Structural)]
pub enum Op {
    /// No operator.
    NoOp,
    /// Stack barrier, never applied.
    LParen,
    Or,
    Xor,
    And,
    Shl,
    Shr,
    Add,
    Sub,
    Mul,
    Div,
    Mod,
    Pow,
    /// a^(1/b) -- INV of x^y.
    Root,
}

/// Unary functions.
#[derive(Clone, Copy, PartialEq, Eq, Debug, Structural)]
pub enum Unary {
    Sin,
    Cos,
    Tan,
    Asin,
    Acos,
    Atan,
    Ln,
    Exp,
    Log10,
    Exp10,
    Sqrt,
    Sqr,
    Recip,
    Fact,
    Not,
    Pct,
}

/// Named constants.
#[derive(Clone, Copy, PartialEq, Eq, Debug, Structural)]
pub enum Konst {
    Pi,
    E,
}

pub open spec fn spec_radix(b: Base) -> int {
    match b {
        Base::Dec => 10,
        Base::Hex => 16,
        Base::Bin => 2,
    }
}

impl Base {
    /// The radix of the base.
    pub fn radix(self) -> (r: i64)
        ensures
            r == spec_radix(self),
    {
        match self {
            Base::Dec => 10,
            Base::Hex => 16,
            Base::Bin => 2,
        }
    }
}

/// Maximum number of significant digits accepted per base.
pub open spec fn spec_max_digits(b: Base) -> int {
    match b {
        Base::Hex => 16,
        Base::Bin => 64,
        Base::Dec => 18,
    }
}

pub fn max_digits(b: Base) -> (n: usize)
    ensures
        n == spec_max_digits(b),
{
    match b {
        Base::Hex => 16,
        Base::Bin => 64,
        Base::Dec => 18,
    }
}

/// Value of a digit character in any base up to 16, either letter case.
pub open spec fn spec_digit_of(c: char) -> Option<int> {
    if '0' <= c && c <= '9' {
        Some(c as int - '0' as int)
    } else if 'a' <= c && c <= 'f' {
        Some(c as int - 'a' as int + 10)
    } else if 'A' <= c && c <= 'F' {
        Some(c as int - 'A' as int + 10)
    } else {
        None
    }
}

pub fn digit_of(ch: char) -> (r: Option<u32>)
    ensures
        r matches Some(d) ==> spec_digit_of(ch) == Some(d as int),
        r is None ==> spec_digit_of(ch) is None,
        r matches Some(d) ==> d < 16,
{
    if '0' <= ch && ch <= '9' {
        Some(ch as u32 - '0' as u32)
    } else if 'a' <= ch && ch <= 'f' {
        Some(ch as u32 - 'a' as u32 + 10)
    } else if 'A' <= ch && ch <= 'F' {
        Some(ch as u32 - 'A' as u32 + 10)
    } else {
        None
    }
}

/// The upper-case symbol of digit `d`.
pub open spec fn sym(d: int) -> char {
    if d < 10 {
        (48 + d) as char
    } else {
        (55 + d) as char
    }
}

pub fn sym_of(d: u32) -> (c: char)
    requires
        d < 16,
    ensures
        c == sym(d as int),
{
    if d < 10 {
        ((48 + d) as u8) as char
    } else {
        ((55 + d) as u8) as char
    }
}

pub proof fn lemma_sym_digit(d: int)
    requires
        0 <= d < 16,
    ensures
        spec_digit_of(sym(d)) == Some(d),
{
}

/// Binding strength of a binary operator; `(` binds least.
pub open spec fn spec_prec(op: Op) -> int {
    match op {
        Op::LParen => 0,
        Op::Or => 1,
        Op::Xor => 2,
        Op::And => 3,
        Op::Shl | Op::Shr => 4,
        Op::Add | Op::Sub => 5,
        Op::Mul | Op::Div | Op::Mod => 6,
        Op::Pow | Op::Root => 7,
        _ => 0,
    }
}

pub fn prec(op: Op) -> (p: i32)
    ensures
        p == spec_prec(op),
{
    match op {
        Op::LParen => 0,
        Op::Or => 1,
        Op::Xor => 2,
        Op::And => 3,
        Op::Shl | Op::Shr => 4,
        Op::Add | Op::Sub => 5,
        Op::Mul | Op::Div | Op::Mod => 6,
        Op::Pow | Op::Root => 7,
        _ => 0,
    }
}

/// Power and root group to the right: `2^3^2` is `2^(3^2)`.
pub open spec fn spec_right_assoc(op: Op) -> bool {
    op == Op::Pow || op == Op::Root
}

pub fn right_assoc(op: Op) -> (b: bool)
    ensures
        b == spec_right_assoc(op),
{
    op == Op::Pow || op == Op::Root
}

/// The text an operator is shown and logged with.
pub open spec fn spec_op_symbol(op: Op) -> Seq<char> {
    match op {
        Op::Add => "+"@,
        Op::Sub => "-"@,
        Op::Mul => "*"@,
        Op::Div => "/"@,
        Op::Mod => "mod"@,
        Op::Pow => "^"@,
        Op::Root => "root"@,
        Op::And => "and"@,
        Op::Or => "or"@,
        Op::Xor => "xor"@,
        Op::Shl => "<<"@,
        Op::Shr => ">>"@,
        _ => ""@,
    }
}

pub fn op_symbol(op: Op) -> (s: &'static str)
    ensures
        s@ == spec_op_symbol(op),
{
    match op {
        Op::Add => "+",
        Op::Sub => "-",
        Op::Mul => "*",
        Op::Div => "/",
        Op::Mod => "mod",
        Op::Pow => "^",
        Op::Root => "root",
        Op::And => "and",
        Op::Or => "or",
        Op::Xor => "xor",
        Op::Shl => "<<",
        Op::Shr => ">>",
        _ => "",
    }
}

pub open spec fn spec_angle_name(a: AngleMode) -> Seq<char> {
    match a {
        AngleMode::Deg => "DEG"@,
        AngleMode::Rad => "RAD"@,
        AngleMode::Grad => "GRAD"@,
    }
}

pub fn angle_name(a: AngleMode) -> (s: &'static str)
    ensures
        s@ == spec_angle_name(a),
{
    match a {
        AngleMode::Deg => "DEG",
        AngleMode::Rad => "RAD",
        AngleMode::Grad => "GRAD",
    }
}

pub open spec fn spec_base_name(b: Base) -> Seq<char> {
    match b {
        Base::Hex => "HEX"@,
        Base::Bin => "BIN"@,
        Base::Dec => "DEC"@,
    }
}

pub fn base_name(b: Base) -> (s: &'static str)
    ensures
        s@ == spec_base_name(b),
{
    match b {
        Base::Hex => "HEX",
        Base::Bin => "BIN",
        Base::Dec => "DEC",
    }
}

/// DEC, HEX, BIN, and round again.
pub open spec fn spec_next_base(b: Base) -> Base {
    match b {
        Base::Dec => Base::Hex,
        Base::Hex => Base::Bin,
        Base::Bin => Base::Dec,
    }
}

pub fn next_base(b: Base) -> (n: Base)
    ensures
        n == spec_next_base(b),
{
    match b {
        Base::Dec => Base::Hex,
        Base::Hex => Base::Bin,
        Base::Bin => Base::Dec,
    }
}

/// DEG, RAD, GRAD, and round again.
pub open spec fn spec_next_angle(a: AngleMode) -> AngleMode {
    match a {
        AngleMode::Deg => AngleMode::Rad,
        AngleMode::Rad => AngleMode::Grad,
        AngleMode::Grad => AngleMode::Deg,
    }
}

pub fn next_angle(a: AngleMode) -> (n: AngleMode)
    ensures
        n == spec_next_angle(a),
{
    match a {
        AngleMode::Deg => AngleMode::Rad,
        AngleMode::Rad => AngleMode::Grad,
        AngleMode::Grad => AngleMode::Deg,
    }
}

/// Three presses of a cycling key come back to where they started.
pub proof fn lemma_cycles_return(b: Base, a: AngleMode)
    ensures
        spec_next_base(spec_next_base(spec_next_base(b))) == b,
        spec_next_angle(spec_next_angle(spec_next_angle(a))) == a,
{
}

// ------------------------------------------------------------ bitwise

/// Why a bitwise operation has no result.
#[derive(Clone, Copy, PartialEq, Eq, Debug, Structural)]
pub enum BitError {
    /// A shift count outside 0..=63.
    ShiftCount,
}

/// The 64-bit two's-complement result of a bitwise operator on integers.
/// Shifts move the bit pattern as unsigned: `>>` fills with zeros.
pub open spec fn spec_bitwise(op: Op, a: i64, b: i64) -> Result<i64, BitError> {
    match op {
        Op::And => Ok(a & b),
        Op::Or => Ok(a | b),
        Op::Xor => Ok(a ^ b),
        _ => if !(0 <= b <= 63) {
            Err(BitError::ShiftCount)
        } else if op == Op::Shl {
            Ok(((a as u64) << (b as u64)) as i64)
        } else {
            Ok(((a as u64) >> (b as u64)) as i64)
        },
    }
}

pub fn bitwise(op: Op, a: i64, b: i64) -> (r: Result<i64, BitError>)
    requires
        op == Op::And || op == Op::Or || op == Op::Xor || op == Op::Shl || op == Op::Shr,
    ensures
        r == spec_bitwise(op, a, b),
{
    match op {
        Op::And => Ok(a & b),
        Op::Or => Ok(a | b),
        Op::Xor => Ok(a ^ b),
        _ => {
            if !(0 <= b && b <= 63) {
                return Err(BitError::ShiftCount);
            }
            let sh = b as u64;
            if op == Op::Shl {
                Ok(((a as u64) << sh) as i64)
            } else {
                Ok(((a as u64) >> sh) as i64)
            }
        },
    }
}


/// The bitwise operators on full 64-bit patterns. XOR undoes itself: the
/// result XOR either operand gives back the other. AND keeps exactly the
/// bits set in both operands, OR exactly the bits set in either. A shift
/// count outside 0..=63 is refused; otherwise a left shift moves every
/// bit up, filling with zeros and dropping what passes the top, and a
/// right shift moves every bit down, filling with zeros from the top.
pub proof fn lemma_bitwise_laws(a: i64, b: i64)
    ensures
        spec_bitwise(Op::Xor, a, b) matches Ok(r) && r ^ b == a && r ^ a == b,
        spec_bitwise(Op::And, a, b) matches Ok(r) && r & !a == 0 && r & !b == 0 && (a & !r) & b
            == 0,
        spec_bitwise(Op::Or, a, b) matches Ok(r) && a & !r == 0 && b & !r == 0 && (r & !a) & !b
            == 0,
        !(0 <= b <= 63) ==> spec_bitwise(Op::Shl, a, b) == Err::<i64, BitError>(BitError::ShiftCount),
        !(0 <= b <= 63) ==> spec_bitwise(Op::Shr, a, b) == Err::<i64, BitError>(BitError::ShiftCount),
        0 <= b <= 63 ==> (spec_bitwise(Op::Shl, a, b) matches Ok(r) && (r as u64) >> (b as u64)
            == (a as u64) & (0xFFFF_FFFF_FFFF_FFFFu64 >> (b as u64)) && (r as u64) & !(
        0xFFFF_FFFF_FFFF_FFFFu64 << (b as u64)) == 0),
        0 <= b <= 63 ==> (spec_bitwise(Op::Shr, a, b) matches Ok(r) && (r as u64) << (b as u64)
            == (a as u64) & (0xFFFF_FFFF_FFFF_FFFFu64 << (b as u64)) && (r as u64) <= (
        0xFFFF_FFFF_FFFF_FFFFu64 >> (b as u64))),
{
    let x = a ^ b;
    assert(x ^ b == a && x ^ a == b) by (bit_vector)
        requires
            x == a ^ b,
    ;
    let y = a & b;
    assert(y & !a == 0 && y & !b == 0 && (a & !y) & b == 0) by (bit_vector)
        requires
            y == a & b,
    ;
    let z = a | b;
    assert(a & !z == 0 && b & !z == 0 && (z & !a) & !b == 0) by (bit_vector)
        requires
            z == a | b,
    ;
    if 0 <= b <= 63 {
        let u = a as u64;
        let sh = b as u64;
        let l = ((u << sh) as i64) as u64;
        assert(l >> sh == u & (0xFFFF_FFFF_FFFF_FFFFu64 >> sh) && l & !(0xFFFF_FFFF_FFFF_FFFFu64
            << sh) == 0) by (bit_vector)
            requires
                l == ((u << sh) as i64) as u64,
                sh <= 63,
        ;
        let r = ((u >> sh) as i64) as u64;
        assert(r << sh == u & (0xFFFF_FFFF_FFFF_FFFFu64 << sh) && r <= (0xFFFF_FFFF_FFFF_FFFFu64
            >> sh)) by (bit_vector)
            requires
                r == ((u >> sh) as i64) as u64,
                sh <= 63,
        ;
    }
}

// ------------------------------------------------------------ rendering

/// The digits of `u` in `base`, most significant first (a lone `0` for 0).
pub open spec fn base_digits(u: nat, base: nat) -> Seq<char>
    decreases u,
{
    if base < 2 || u < base {
        seq![sym(u as int)]
    } else {
        proof {
            lemma_div_smaller(u, base);
        }
        base_digits(u / base, base).push(sym((u % base) as int))
    }
}

pub proof fn lemma_div_smaller(u: nat, base: nat)
    requires
        base >= 2,
        u >= base,
    ensures
        u / base < u,
{
    assert(u / base < u) by (nonlinear_arith)
        requires
            base >= 2,
            u >= base,
    ;
}

/// `ds` with a space after every digit that has a multiple of `grp` digits
/// after it (so groups of `grp` are counted from the right).
pub open spec fn grouped(ds: Seq<char>, grp: nat) -> Seq<char>
    decreases ds.len(),
{
    if ds.len() == 0 {
        Seq::empty()
    } else {
        let rest = (ds.len() - 1) as nat;
        let head = if rest > 0 && grp > 0 && rest % grp == 0 {
            seq![ds[0], ' ']
        } else {
            seq![ds[0]]
        };
        head + grouped(ds.drop_first(), grp)
    }
}

/// Up to a group's worth of digits is shown as it is.
proof fn lemma_grouped_short(ds: Seq<char>, grp: nat)
    requires
        ds.len() <= grp,
    ensures
        grouped(ds, grp) == ds,
    decreases ds.len(),
{
    if ds.len() > 0 {
        lemma_grouped_short(ds.drop_first(), grp);
        assert((ds.len() - 1) as nat % grp == (ds.len() - 1) as nat) by {
            vstd::arithmetic::div_mod::lemma_small_mod((ds.len() - 1) as nat, grp);
        }
        assert(seq![ds[0]] + ds.drop_first() =~= ds);
    }
}

/// Digit grouping counts from the right: a group's worth of digits or
/// fewer is shown as it is, and a longer run is the grouping of all but
/// its last `grp` digits, a space, and those last digits.
pub proof fn lemma_grouped_from_right(ds: Seq<char>, grp: nat)
    requires
        grp > 0,
    ensures
        ds.len() <= grp ==> grouped(ds, grp) == ds,
        ds.len() > grp ==> grouped(ds, grp) == grouped(ds.take(ds.len() - grp), grp) + seq![' ']
            + ds.skip(ds.len() - grp),
{
    if ds.len() <= grp {
        lemma_grouped_short(ds, grp);
    } else {
        let a = ds.take(ds.len() - grp);
        let b = ds.skip(ds.len() - grp);
        assert(a + b =~= ds);
        lemma_grouped_append(a, b, grp);
    }
}

proof fn lemma_grouped_append(a: Seq<char>, b: Seq<char>, grp: nat)
    requires
        grp > 0,
        a.len() > 0,
        b.len() == grp,
    ensures
        grouped(a + b, grp) == grouped(a, grp) + seq![' '] + b,
    decreases a.len(),
{
    let ab = a + b;
    let rest = (ab.len() - 1) as nat;
    let rest_a = (a.len() - 1) as nat;
    assert(rest % grp == rest_a % grp) by {
        vstd::arithmetic::div_mod::lemma_mod_add_multiples_vanish(rest_a as int, grp as int);
    }
    assert(ab[0] == a[0]);
    assert(ab.drop_first() =~= a.drop_first() + b);
    if a.len() == 1 {
        lemma_grouped_short(b, grp);
        assert(rest_a == 0);
        assert(rest % grp == 0) by {
            vstd::arithmetic::div_mod::lemma_mod_self_0(grp as int);
        }
        assert(a.drop_first() + b =~= b);
        assert(grouped(a, grp) =~= seq![a[0]]);
    } else {
        lemma_grouped_append(a.drop_first(), b, grp);
    }
}

proof fn lemma_grouped_split(ds: Seq<char>, grp: nat, i: int)
    requires
        0 <= i <= ds.len(),
    ensures
        grouped(ds, grp) == grouped_prefix(ds, grp, i) + grouped(ds.skip(i), grp),
    decreases i,
{
    if i > 0 {
        assert(ds.skip(1) == ds.drop_first());
        lemma_grouped_split(ds.drop_first(), grp, i - 1);
        assert(ds.drop_first().skip(i - 1) == ds.skip(i));
        lemma_grouped_prefix_step(ds, grp, i);
    } else {
        assert(ds.skip(0) == ds);
    }
}

/// The grouped text of the first `i` characters of `ds` (grouping counts
/// from the end of the whole of `ds`).
pub open spec fn grouped_prefix(ds: Seq<char>, grp: nat, i: int) -> Seq<char>
    decreases i,
{
    if i <= 0 || ds.len() == 0 {
        Seq::empty()
    } else {
        let rest = (ds.len() - 1) as nat;
        let head = if rest > 0 && grp > 0 && rest % grp == 0 {
            seq![ds[0], ' ']
        } else {
            seq![ds[0]]
        };
        head + grouped_prefix(ds.drop_first(), grp, i - 1)
    }
}

proof fn lemma_grouped_prefix_step(ds: Seq<char>, grp: nat, i: int)
    requires
        0 < i <= ds.len(),
    ensures
        grouped_prefix(ds, grp, i) == grouped_prefix(ds, grp, i - 1) + (if (ds.len() - i) > 0
            && grp > 0 && (ds.len() - i) as nat % grp == 0 {
            seq![ds[i - 1], ' ']
        } else {
            seq![ds[i - 1]]
        }),
    decreases i,
{
    let df = ds.drop_first();
    let rest = (ds.len() - 1) as nat;
    let head = if rest > 0 && grp > 0 && rest % grp == 0 {
        seq![ds[0], ' ']
    } else {
        seq![ds[0]]
    };
    assert(grouped_prefix(ds, grp, i) == head + grouped_prefix(df, grp, i - 1));
    if i > 1 {
        lemma_grouped_prefix_step(df, grp, i - 1);
        assert(df[i - 2] == ds[i - 1]);
        assert(grouped_prefix(ds, grp, i - 1) == head + grouped_prefix(df, grp, i - 2));
        assert(df.len() - (i - 1) == ds.len() - i);
    } else {
        assert(grouped_prefix(df, grp, 0) == Seq::<char>::empty());
        assert(grouped_prefix(ds, grp, 0) == Seq::<char>::empty());
        assert(head + Seq::<char>::empty() =~= head);
    }
}

/// Render a character sequence with a space every `grp` characters counted
/// from the right, upper-casing ASCII letters when asked.
fn push_grouped(out: &mut Vec<char>, ds: &[char], grp: usize)
    ensures
        final(out)@ == old(out)@ + grouped(ds@, grp as nat),
{
    let nd = ds.len();
    let mut i: usize = 0;
    while i < nd
        invariant
            nd == ds@.len(),
            i <= nd,
            out@ == old(out)@ + grouped_prefix(ds@, grp as nat, i as int),
        decreases nd - i,
    {
        proof {
            lemma_grouped_prefix_step(ds@, grp as nat, i + 1);
        }
        out.push(ds[i]);
        let remaining = nd - i - 1;
        if remaining > 0 && grp > 0 && remaining % grp == 0 {
            out.push(' ');
        }
        i += 1;
    }
    proof {
        lemma_grouped_split(ds@, grp as nat, nd as int);
        assert(ds@.skip(nd as int).len() == 0);
    }
    assert(out@ =~= old(out)@ + grouped(ds@, grp as nat));
}

/// The digits of `u` in `base`, least significant first.
fn digits_reversed(u: u64, base: u64) -> (r: Vec<char>)
    requires
        2 <= base <= 16,
    ensures
        r@.reverse() == base_digits(u as nat, base as nat),
    decreases u,
{
    if u < base {
        let mut r: Vec<char> = Vec::new();
        r.push(sym_of(u as u32));
        assert(r@.reverse() =~= seq![sym(u as int)]);
        r
    } else {
        let mut r: Vec<char> = Vec::new();
        r.push(sym_of((u % base) as u32));
        proof {
            lemma_div_smaller(u as nat, base as nat);
        }
        let rest = digits_reversed(u / base, base);
        let ghost head = r@;
        let mut i: usize = 0;
        while i < rest.len()
            invariant
                i <= rest@.len(),
                r@ == head + rest@.take(i as int),
            decreases rest@.len() - i,
        {
            r.push(rest[i]);
            i += 1;
        }
        assert(rest@.take(rest@.len() as int) == rest@);
        assert((head + rest@).reverse() =~= rest@.reverse() + head.reverse());
        assert(head.reverse() =~= seq![sym((u % base) as int)]);
        r
    }
}

/// Render `u` in `base`, inserting a space every `grp` digits counted from
/// the right.
pub fn fmt_ubase(u: u64, base: u32, grp: usize) -> (s: String)
    requires
        2 <= base <= 16,
        grp > 0 || u < base,
    ensures
        s@ == grouped(base_digits(u as nat, base as nat), grp as nat),
{
    let rev = digits_reversed(u, base as u64);
    let mut ds: Vec<char> = Vec::new();
    let mut i: usize = rev.len();
    while i > 0
        invariant
            i <= rev@.len(),
            ds@ == rev@.skip(i as int).reverse(),
        decreases i,
    {
        assert(rev@.skip(i - 1).reverse() =~= rev@.skip(i as int).reverse().push(rev@[i - 1]));
        ds.push(rev[i - 1]);
        i -= 1;
    }
    assert(rev@.skip(0) == rev@);
    let mut out: Vec<char> = Vec::new();
    push_grouped(&mut out, ds.as_slice(), grp);
    assert(out@ =~= grouped(base_digits(u as nat, base as nat), grp as nat));
    chars_to_string(out.as_slice())
}

/// Group size for a base's display: four hexadecimal or eight binary
/// digits.
pub open spec fn spec_group(b: Base) -> nat {
    if b == Base::Hex {
        4
    } else {
        8
    }
}

/// The 64-bit two's-complement pattern of `v` in hexadecimal or binary.
pub fn render_int(v: i64, b: Base) -> (s: String)
    requires
        b != Base::Dec,
    ensures
        s@ == grouped(base_digits((v as u64) as nat, spec_radix(b) as nat), spec_group(b)),
{
    let radix: u32 = if b == Base::Hex { 16 } else { 2 };
    let grp: usize = if b == Base::Hex { 4 } else { 8 };
    fmt_ubase(v as u64, radix, grp)
}

/// ASCII letters raised, everything else kept.
pub open spec fn ascii_upper(s: Seq<char>) -> Seq<char> {
    s.map_values(|c: char| if 'a' <= c && c <= 'z' { ((c as u32) - 32) as char } else { c })
}

/// Group the raw entry text the same way a finished value would be grouped.
pub fn fmt_entry_grouped(s: &str, grp: usize) -> (r: String)
    ensures
        r@ == grouped(ascii_upper(s@), grp as nat),
{
    let chars = str_chars(s);
    let mut up: Vec<char> = Vec::new();
    let mut i: usize = 0;
    while i < chars.len()
        invariant
            chars@ == s@,
            i <= chars@.len(),
            up@ == ascii_upper(chars@.take(i as int)),
        decreases chars@.len() - i,
    {
        let c = chars[i];
        let u = if 'a' <= c && c <= 'z' {
            ((c as u32) - 32) as u8 as char
        } else {
            c
        };
        up.push(u);
        assert(ascii_upper(chars@.take(i + 1)) =~= ascii_upper(chars@.take(i as int)).push(u));
        i += 1;
    }
    assert(chars@.take(chars@.len() as int) == chars@);
    let mut out: Vec<char> = Vec::new();
    push_grouped(&mut out, up.as_slice(), grp);
    assert(out@ =~= grouped(ascii_upper(s@), grp as nat));
    chars_to_string(out.as_slice())
}

/// Decimal text without trailing fractional zeros (and without a point left
/// bare); a text that would become empty or `-` reads `0`. Text without a
/// point is kept as it is.
pub open spec fn spec_trim_zeros(s: Seq<char>) -> Seq<char> {
    if !s.contains('.') {
        s
    } else {
        let t = drop_trailing(drop_trailing(s, '0'), '.');
        if t.len() == 0 || t == seq!['-'] {
            seq!['0']
        } else {
            t
        }
    }
}

/// `s` without the run of `c` at its end.
pub open spec fn drop_trailing(s: Seq<char>, c: char) -> Seq<char>
    decreases s.len(),
{
    if s.len() > 0 && s.last() == c {
        drop_trailing(s.drop_last(), c)
    } else {
        s
    }
}


proof fn lemma_drop_trailing(s: Seq<char>, c: char)
    ensures
        drop_trailing(s, c).len() <= s.len(),
        drop_trailing(s, c) == s.take(drop_trailing(s, c).len() as int),
        forall|j: int| drop_trailing(s, c).len() <= j < s.len() ==> s[j] == c,
        drop_trailing(s, c).len() > 0 ==> drop_trailing(s, c).last() != c,
    decreases s.len(),
{
    if s.len() > 0 && s.last() == c {
        lemma_drop_trailing(s.drop_last(), c);
        let r = drop_trailing(s, c);
        assert(s.drop_last().take(r.len() as int) == s.take(r.len() as int));
        assert forall|j: int| r.len() <= j < s.len() implies s[j] == c by {
            if j < s.len() - 1 {
                assert(s[j] == s.drop_last()[j]);
            }
        }
    } else {
        assert(s.take(s.len() as int) == s);
    }
}

/// Trimming cuts only from the end, and only zeros and points; it never
/// reaches into the digits before the (first) point, whose index is `d`.
/// What is left ends in neither a point nor a zero, unless that zero
/// stood before a cut point. When nothing but a sign (or nothing) would
/// be left, the result is `0`. A text without a point is left alone.
pub proof fn lemma_trim_zeros(s: Seq<char>, d: int)
    requires
        0 <= d < s.len(),
        s[d] == '.',
        forall|j: int| 0 <= j < d ==> s[j] != '.',
    ensures
        ({
            let r = spec_trim_zeros(s);
            ||| {
                &&& d <= r.len() <= s.len()
                &&& r == s.take(r.len() as int)
                &&& forall|j: int| r.len() <= j < s.len() ==> s[j] == '0' || s[j] == '.'
                &&& r.len() > 0 && r != seq!['-']
                &&& r.last() != '.'
                &&& r.last() == '0' ==> r.len() < s.len() && s[r.len() as int] == '.'
            }
            ||| {
                &&& r == seq!['0']
                &&& (d == 0 || (d == 1 && s[0] == '-'))
                &&& forall|j: int| d <= j < s.len() ==> s[j] == '0' || s[j] == '.'
            }
        }),
{
    assert(s.contains('.')) by {
        assert(s[d] == '.');
    }
    let a = drop_trailing(s, '0');
    let t = drop_trailing(a, '.');
    lemma_drop_trailing(s, '0');
    lemma_drop_trailing(a, '.');
    if a.len() <= d {
        assert(s[d] == '0');
    }
    assert(a[d] == s[d]);
    if t.len() < d {
        assert(a[t.len() as int] == '.');
        assert(a[t.len() as int] == s[t.len() as int]);
    }
    assert(t =~= s.take(t.len() as int));
    assert forall|j: int| t.len() <= j < s.len() implies s[j] == '0' || s[j] == '.' by {
        if j < a.len() {
            assert(a[j] == s[j]);
        }
    }
    if t.len() > 0 && t.last() == '0' {
        if t.len() == a.len() {
            assert(t.last() == a.last());
        }
        assert(a[t.len() as int] == s[t.len() as int]);
    }
    if t.len() == 0 || t == seq!['-'] {
        if t == seq!['-'] {
            assert(s[0] == t[0]);
        }
    }
}

/// Without a point there is nothing to trim.
pub proof fn lemma_trim_no_point(s: Seq<char>)
    requires
        !s.contains('.'),
    ensures
        spec_trim_zeros(s) == s,
{
}

fn drop_trailing_exec(s: &[char], c: char) -> (r: Vec<char>)
    ensures
        r@ == drop_trailing(s@, c),
{
    let mut n = s.len();
    while n > 0 && s[n - 1] == c
        invariant
            n <= s@.len(),
            drop_trailing(s@, c) == drop_trailing(s@.take(n as int), c),
        decreases n,
    {
        assert(s@.take(n as int).drop_last() == s@.take(n - 1));
        n -= 1;
    }
    assert(drop_trailing(s@.take(n as int), c) == s@.take(n as int));
    sub_chars(s, 0, n)
}

pub fn trim_trailing_zeros(s: &str) -> (r: String)
    ensures
        r@ == spec_trim_zeros(s@),
{
    let chars = str_chars(s);
    if !crate::text::contains_char(chars.as_slice(), '.') {
        return chars_to_string(chars.as_slice());
    }
    let a = drop_trailing_exec(chars.as_slice(), '0');
    let t = drop_trailing_exec(a.as_slice(), '.');
    assert(t@.len() == 1 && t@[0] == '-' ==> t@ =~= seq!['-']);
    if t.len() == 0 || (t.len() == 1 && t[0] == '-') {
        let mut z: Vec<char> = Vec::new();
        z.push('0');
        assert(z@ =~= seq!['0']);
        return chars_to_string(z.as_slice());
    }
    assert(t@ == seq!['-'] ==> t@.len() == 1 && t@[0] == '-');
    chars_to_string(t.as_slice())
}

} // verus!
