//! The keypad: every button with its label, action, second function,
//! shortcut keys and colour category; the screen geometry the buttons are
//! laid out in; and the rules for focus, mouse hits and key lookup.

use vstd::prelude::*;
use crate::calc::{spec_radix, Base, Konst, Op, Unary};
use crate::style::StyleId;
use crate::text::{chars_to_string, str_chars};

verus! {

broadcast use vstd::seq_lib::group_seq_properties;

/// Usable width inside the display frame.
pub const W_INNER: i32 = 72;
/// Frame width, borders included.
pub const W_FRAME: i32 = 74;
/// Fixed number of rendered lines.
pub const H_CONTENT: i32 = 20;
pub const NFUNC_ROWS: usize = 6;
pub const NROWS: usize = 12;
pub const MAX_COLS: usize = 6;

/// What pressing a button does.
#[derive(Clone, Copy, PartialEq, Eq, Debug, Structural)]
pub enum Action {
    Nothing,
    Digit(u32),
    Point,
    Ee,
    Sign,
    Backspace,
    Clear,
    AllClear,
    Op(Op),
    LParen,
    RParen,
    Equals,
    Unary(Unary),
    Const(Konst),
    Base(Base),
    Drg,
    DrgConv,
    Inv,
    Sto,
    Rcl,
    Madd,
    Mexc,
    Mclr,
    Ans,
}

/// A keypad button. `inv` is `Nothing` when INV does not change the key.
#[derive(Clone, Copy)]
pub struct Btn {
    pub label: &'static str,
    pub act: Action,
    pub inv: Action,
    pub keys: &'static str,
    pub hexdigit_only: bool,
    pub cat: StyleId,
}

/// Buttons per row: six in the function rows and the hex-digit row, four
/// in the number rows.
pub open spec fn row_len(r: int) -> int {
    if r <= 6 {
        6
    } else {
        4
    }
}

pub fn row_width(r: usize) -> (n: usize)
    ensures
        n == row_len(r as int),
{
    if r <= 6 {
        6
    } else {
        4
    }
}

/// The button at row `r`, column `c`: functions in rows 0-5, number entry
/// in rows 6-11.
pub open spec fn spec_button(r: int, c: int) -> Btn {
    if r == 0 && c == 0 {
        Btn { label: "DRG", act: Action::Drg, inv: Action::DrgConv, keys: "d", hexdigit_only: false, cat: StyleId::KeyMode }
    } else if r == 0 && c == 1 {
        Btn { label: "INV", act: Action::Inv, inv: Action::Nothing, keys: "i", hexdigit_only: false, cat: StyleId::KeyMode }
    } else if r == 0 && c == 2 {
        Btn { label: "sin", act: Action::Unary(Unary::Sin), inv: Action::Unary(Unary::Asin), keys: "s", hexdigit_only: false, cat: StyleId::KeySci }
    } else if r == 0 && c == 3 {
        Btn { label: "cos", act: Action::Unary(Unary::Cos), inv: Action::Unary(Unary::Acos), keys: "c", hexdigit_only: false, cat: StyleId::KeySci }
    } else if r == 0 && c == 4 {
        Btn { label: "tan", act: Action::Unary(Unary::Tan), inv: Action::Unary(Unary::Atan), keys: "t", hexdigit_only: false, cat: StyleId::KeySci }
    } else if r == 0 && c == 5 {
        Btn { label: "x!", act: Action::Unary(Unary::Fact), inv: Action::Nothing, keys: "!", hexdigit_only: false, cat: StyleId::KeySci }
    } else if r == 1 && c == 0 {
        Btn { label: "1/x", act: Action::Unary(Unary::Recip), inv: Action::Nothing, keys: "v", hexdigit_only: false, cat: StyleId::KeySci }
    } else if r == 1 && c == 1 {
        Btn { label: "x^2", act: Action::Unary(Unary::Sqr), inv: Action::Unary(Unary::Sqrt), keys: "", hexdigit_only: false, cat: StyleId::KeySci }
    } else if r == 1 && c == 2 {
        Btn { label: "sqrt", act: Action::Unary(Unary::Sqrt), inv: Action::Unary(Unary::Sqr), keys: "r", hexdigit_only: false, cat: StyleId::KeySci }
    } else if r == 1 && c == 3 {
        Btn { label: "x^y", act: Action::Op(Op::Pow), inv: Action::Op(Op::Root), keys: "^", hexdigit_only: false, cat: StyleId::KeyOperator }
    } else if r == 1 && c == 4 {
        Btn { label: "ln", act: Action::Unary(Unary::Ln), inv: Action::Unary(Unary::Exp), keys: "l", hexdigit_only: false, cat: StyleId::KeySci }
    } else if r == 1 && c == 5 {
        Btn { label: "log", act: Action::Unary(Unary::Log10), inv: Action::Unary(Unary::Exp10), keys: "g", hexdigit_only: false, cat: StyleId::KeySci }
    } else if r == 2 && c == 0 {
        Btn { label: "e^x", act: Action::Unary(Unary::Exp), inv: Action::Unary(Unary::Ln), keys: "", hexdigit_only: false, cat: StyleId::KeySci }
    } else if r == 2 && c == 1 {
        Btn { label: "10^x", act: Action::Unary(Unary::Exp10), inv: Action::Unary(Unary::Log10), keys: "", hexdigit_only: false, cat: StyleId::KeySci }
    } else if r == 2 && c == 2 {
        Btn { label: "EE", act: Action::Ee, inv: Action::Nothing, keys: "e", hexdigit_only: false, cat: StyleId::KeySci }
    } else if r == 2 && c == 3 {
        Btn { label: "pi", act: Action::Const(Konst::Pi), inv: Action::Nothing, keys: "p", hexdigit_only: false, cat: StyleId::KeySci }
    } else if r == 2 && c == 4 {
        Btn { label: "e", act: Action::Const(Konst::E), inv: Action::Nothing, keys: "E", hexdigit_only: false, cat: StyleId::KeySci }
    } else if r == 2 && c == 5 {
        Btn { label: "%", act: Action::Unary(Unary::Pct), inv: Action::Nothing, keys: "%", hexdigit_only: false, cat: StyleId::KeySci }
    } else if r == 3 && c == 0 {
        Btn { label: "(", act: Action::LParen, inv: Action::Nothing, keys: "(", hexdigit_only: false, cat: StyleId::KeyParen }
    } else if r == 3 && c == 1 {
        Btn { label: ")", act: Action::RParen, inv: Action::Nothing, keys: ")", hexdigit_only: false, cat: StyleId::KeyParen }
    } else if r == 3 && c == 2 {
        Btn { label: "STO", act: Action::Sto, inv: Action::Nothing, keys: "m", hexdigit_only: false, cat: StyleId::KeyMemory }
    } else if r == 3 && c == 3 {
        Btn { label: "RCL", act: Action::Rcl, inv: Action::Nothing, keys: "n", hexdigit_only: false, cat: StyleId::KeyMemory }
    } else if r == 3 && c == 4 {
        Btn { label: "M+", act: Action::Madd, inv: Action::Nothing, keys: "M", hexdigit_only: false, cat: StyleId::KeyMemory }
    } else if r == 3 && c == 5 {
        Btn { label: "MX", act: Action::Mexc, inv: Action::Nothing, keys: "X", hexdigit_only: false, cat: StyleId::KeyMemory }
    } else if r == 4 && c == 0 {
        Btn { label: "DEC", act: Action::Base(Base::Dec), inv: Action::Nothing, keys: "D", hexdigit_only: false, cat: StyleId::KeyMode }
    } else if r == 4 && c == 1 {
        Btn { label: "HEX", act: Action::Base(Base::Hex), inv: Action::Nothing, keys: "H", hexdigit_only: false, cat: StyleId::KeyMode }
    } else if r == 4 && c == 2 {
        Btn { label: "BIN", act: Action::Base(Base::Bin), inv: Action::Nothing, keys: "B", hexdigit_only: false, cat: StyleId::KeyMode }
    } else if r == 4 && c == 3 {
        Btn { label: "AND", act: Action::Op(Op::And), inv: Action::Nothing, keys: "&", hexdigit_only: false, cat: StyleId::KeyBitwise }
    } else if r == 4 && c == 4 {
        Btn { label: "OR", act: Action::Op(Op::Or), inv: Action::Nothing, keys: "|", hexdigit_only: false, cat: StyleId::KeyBitwise }
    } else if r == 4 && c == 5 {
        Btn { label: "XOR", act: Action::Op(Op::Xor), inv: Action::Nothing, keys: "#", hexdigit_only: false, cat: StyleId::KeyBitwise }
    } else if r == 5 && c == 0 {
        Btn { label: "NOT", act: Action::Unary(Unary::Not), inv: Action::Nothing, keys: "~", hexdigit_only: false, cat: StyleId::KeyBitwise }
    } else if r == 5 && c == 1 {
        Btn { label: "<<", act: Action::Op(Op::Shl), inv: Action::Nothing, keys: "<", hexdigit_only: false, cat: StyleId::KeyBitwise }
    } else if r == 5 && c == 2 {
        Btn { label: ">>", act: Action::Op(Op::Shr), inv: Action::Nothing, keys: ">", hexdigit_only: false, cat: StyleId::KeyBitwise }
    } else if r == 5 && c == 3 {
        Btn { label: "MOD", act: Action::Op(Op::Mod), inv: Action::Nothing, keys: "\\", hexdigit_only: false, cat: StyleId::KeyBitwise }
    } else if r == 5 && c == 4 {
        Btn { label: "MC", act: Action::Mclr, inv: Action::Nothing, keys: "K", hexdigit_only: false, cat: StyleId::KeyMemory }
    } else if r == 5 && c == 5 {
        Btn { label: "ANS", act: Action::Ans, inv: Action::Nothing, keys: "A", hexdigit_only: false, cat: StyleId::KeyMemory }
    } else if r == 6 && c == 0 {
        Btn { label: "A", act: Action::Digit(10), inv: Action::Nothing, keys: "aA", hexdigit_only: true, cat: StyleId::KeyHexdigit }
    } else if r == 6 && c == 1 {
        Btn { label: "B", act: Action::Digit(11), inv: Action::Nothing, keys: "bB", hexdigit_only: true, cat: StyleId::KeyHexdigit }
    } else if r == 6 && c == 2 {
        Btn { label: "C", act: Action::Digit(12), inv: Action::Nothing, keys: "cC", hexdigit_only: true, cat: StyleId::KeyHexdigit }
    } else if r == 6 && c == 3 {
        Btn { label: "D", act: Action::Digit(13), inv: Action::Nothing, keys: "dD", hexdigit_only: true, cat: StyleId::KeyHexdigit }
    } else if r == 6 && c == 4 {
        Btn { label: "E", act: Action::Digit(14), inv: Action::Nothing, keys: "eE", hexdigit_only: true, cat: StyleId::KeyHexdigit }
    } else if r == 6 && c == 5 {
        Btn { label: "F", act: Action::Digit(15), inv: Action::Nothing, keys: "fF", hexdigit_only: true, cat: StyleId::KeyHexdigit }
    } else if r == 7 && c == 0 {
        Btn { label: "7", act: Action::Digit(7), inv: Action::Nothing, keys: "7", hexdigit_only: false, cat: StyleId::KeyDigit }
    } else if r == 7 && c == 1 {
        Btn { label: "8", act: Action::Digit(8), inv: Action::Nothing, keys: "8", hexdigit_only: false, cat: StyleId::KeyDigit }
    } else if r == 7 && c == 2 {
        Btn { label: "9", act: Action::Digit(9), inv: Action::Nothing, keys: "9", hexdigit_only: false, cat: StyleId::KeyDigit }
    } else if r == 7 && c == 3 {
        Btn { label: "/", act: Action::Op(Op::Div), inv: Action::Nothing, keys: "/", hexdigit_only: false, cat: StyleId::KeyOperator }
    } else if r == 8 && c == 0 {
        Btn { label: "4", act: Action::Digit(4), inv: Action::Nothing, keys: "4", hexdigit_only: false, cat: StyleId::KeyDigit }
    } else if r == 8 && c == 1 {
        Btn { label: "5", act: Action::Digit(5), inv: Action::Nothing, keys: "5", hexdigit_only: false, cat: StyleId::KeyDigit }
    } else if r == 8 && c == 2 {
        Btn { label: "6", act: Action::Digit(6), inv: Action::Nothing, keys: "6", hexdigit_only: false, cat: StyleId::KeyDigit }
    } else if r == 8 && c == 3 {
        Btn { label: "*", act: Action::Op(Op::Mul), inv: Action::Nothing, keys: "*", hexdigit_only: false, cat: StyleId::KeyOperator }
    } else if r == 9 && c == 0 {
        Btn { label: "1", act: Action::Digit(1), inv: Action::Nothing, keys: "1", hexdigit_only: false, cat: StyleId::KeyDigit }
    } else if r == 9 && c == 1 {
        Btn { label: "2", act: Action::Digit(2), inv: Action::Nothing, keys: "2", hexdigit_only: false, cat: StyleId::KeyDigit }
    } else if r == 9 && c == 2 {
        Btn { label: "3", act: Action::Digit(3), inv: Action::Nothing, keys: "3", hexdigit_only: false, cat: StyleId::KeyDigit }
    } else if r == 9 && c == 3 {
        Btn { label: "-", act: Action::Op(Op::Sub), inv: Action::Nothing, keys: "-", hexdigit_only: false, cat: StyleId::KeyOperator }
    } else if r == 10 && c == 0 {
        Btn { label: "0", act: Action::Digit(0), inv: Action::Nothing, keys: "0", hexdigit_only: false, cat: StyleId::KeyDigit }
    } else if r == 10 && c == 1 {
        Btn { label: ".", act: Action::Point, inv: Action::Nothing, keys: ".", hexdigit_only: false, cat: StyleId::KeyDigit }
    } else if r == 10 && c == 2 {
        Btn { label: "+/-", act: Action::Sign, inv: Action::Nothing, keys: "_", hexdigit_only: false, cat: StyleId::KeyDigit }
    } else if r == 10 && c == 3 {
        Btn { label: "+", act: Action::Op(Op::Add), inv: Action::Nothing, keys: "+", hexdigit_only: false, cat: StyleId::KeyOperator }
    } else if r == 11 && c == 0 {
        Btn { label: "C", act: Action::Clear, inv: Action::Nothing, keys: "", hexdigit_only: false, cat: StyleId::KeyEdit }
    } else if r == 11 && c == 1 {
        Btn { label: "AC", act: Action::AllClear, inv: Action::Nothing, keys: "", hexdigit_only: false, cat: StyleId::KeyEdit }
    } else if r == 11 && c == 2 {
        Btn { label: "DEL", act: Action::Backspace, inv: Action::Nothing, keys: "", hexdigit_only: false, cat: StyleId::KeyEdit }
    } else if r == 11 && c == 3 {
        Btn { label: "=", act: Action::Equals, inv: Action::Nothing, keys: "=", hexdigit_only: false, cat: StyleId::KeyEquals }
    } else {
        Btn { label: "", act: Action::Nothing, inv: Action::Nothing, keys: "", hexdigit_only: false, cat: StyleId::KeyDigit }
    }
}

pub fn button(r: usize, c: usize) -> (b: Btn)
    ensures
        b == spec_button(r as int, c as int),
{
    if r == 0 && c == 0 {
        Btn { label: "DRG", act: Action::Drg, inv: Action::DrgConv, keys: "d", hexdigit_only: false, cat: StyleId::KeyMode }
    } else if r == 0 && c == 1 {
        Btn { label: "INV", act: Action::Inv, inv: Action::Nothing, keys: "i", hexdigit_only: false, cat: StyleId::KeyMode }
    } else if r == 0 && c == 2 {
        Btn { label: "sin", act: Action::Unary(Unary::Sin), inv: Action::Unary(Unary::Asin), keys: "s", hexdigit_only: false, cat: StyleId::KeySci }
    } else if r == 0 && c == 3 {
        Btn { label: "cos", act: Action::Unary(Unary::Cos), inv: Action::Unary(Unary::Acos), keys: "c", hexdigit_only: false, cat: StyleId::KeySci }
    } else if r == 0 && c == 4 {
        Btn { label: "tan", act: Action::Unary(Unary::Tan), inv: Action::Unary(Unary::Atan), keys: "t", hexdigit_only: false, cat: StyleId::KeySci }
    } else if r == 0 && c == 5 {
        Btn { label: "x!", act: Action::Unary(Unary::Fact), inv: Action::Nothing, keys: "!", hexdigit_only: false, cat: StyleId::KeySci }
    } else if r == 1 && c == 0 {
        Btn { label: "1/x", act: Action::Unary(Unary::Recip), inv: Action::Nothing, keys: "v", hexdigit_only: false, cat: StyleId::KeySci }
    } else if r == 1 && c == 1 {
        Btn { label: "x^2", act: Action::Unary(Unary::Sqr), inv: Action::Unary(Unary::Sqrt), keys: "", hexdigit_only: false, cat: StyleId::KeySci }
    } else if r == 1 && c == 2 {
        Btn { label: "sqrt", act: Action::Unary(Unary::Sqrt), inv: Action::Unary(Unary::Sqr), keys: "r", hexdigit_only: false, cat: StyleId::KeySci }
    } else if r == 1 && c == 3 {
        Btn { label: "x^y", act: Action::Op(Op::Pow), inv: Action::Op(Op::Root), keys: "^", hexdigit_only: false, cat: StyleId::KeyOperator }
    } else if r == 1 && c == 4 {
        Btn { label: "ln", act: Action::Unary(Unary::Ln), inv: Action::Unary(Unary::Exp), keys: "l", hexdigit_only: false, cat: StyleId::KeySci }
    } else if r == 1 && c == 5 {
        Btn { label: "log", act: Action::Unary(Unary::Log10), inv: Action::Unary(Unary::Exp10), keys: "g", hexdigit_only: false, cat: StyleId::KeySci }
    } else if r == 2 && c == 0 {
        Btn { label: "e^x", act: Action::Unary(Unary::Exp), inv: Action::Unary(Unary::Ln), keys: "", hexdigit_only: false, cat: StyleId::KeySci }
    } else if r == 2 && c == 1 {
        Btn { label: "10^x", act: Action::Unary(Unary::Exp10), inv: Action::Unary(Unary::Log10), keys: "", hexdigit_only: false, cat: StyleId::KeySci }
    } else if r == 2 && c == 2 {
        Btn { label: "EE", act: Action::Ee, inv: Action::Nothing, keys: "e", hexdigit_only: false, cat: StyleId::KeySci }
    } else if r == 2 && c == 3 {
        Btn { label: "pi", act: Action::Const(Konst::Pi), inv: Action::Nothing, keys: "p", hexdigit_only: false, cat: StyleId::KeySci }
    } else if r == 2 && c == 4 {
        Btn { label: "e", act: Action::Const(Konst::E), inv: Action::Nothing, keys: "E", hexdigit_only: false, cat: StyleId::KeySci }
    } else if r == 2 && c == 5 {
        Btn { label: "%", act: Action::Unary(Unary::Pct), inv: Action::Nothing, keys: "%", hexdigit_only: false, cat: StyleId::KeySci }
    } else if r == 3 && c == 0 {
        Btn { label: "(", act: Action::LParen, inv: Action::Nothing, keys: "(", hexdigit_only: false, cat: StyleId::KeyParen }
    } else if r == 3 && c == 1 {
        Btn { label: ")", act: Action::RParen, inv: Action::Nothing, keys: ")", hexdigit_only: false, cat: StyleId::KeyParen }
    } else if r == 3 && c == 2 {
        Btn { label: "STO", act: Action::Sto, inv: Action::Nothing, keys: "m", hexdigit_only: false, cat: StyleId::KeyMemory }
    } else if r == 3 && c == 3 {
        Btn { label: "RCL", act: Action::Rcl, inv: Action::Nothing, keys: "n", hexdigit_only: false, cat: StyleId::KeyMemory }
    } else if r == 3 && c == 4 {
        Btn { label: "M+", act: Action::Madd, inv: Action::Nothing, keys: "M", hexdigit_only: false, cat: StyleId::KeyMemory }
    } else if r == 3 && c == 5 {
        Btn { label: "MX", act: Action::Mexc, inv: Action::Nothing, keys: "X", hexdigit_only: false, cat: StyleId::KeyMemory }
    } else if r == 4 && c == 0 {
        Btn { label: "DEC", act: Action::Base(Base::Dec), inv: Action::Nothing, keys: "D", hexdigit_only: false, cat: StyleId::KeyMode }
    } else if r == 4 && c == 1 {
        Btn { label: "HEX", act: Action::Base(Base::Hex), inv: Action::Nothing, keys: "H", hexdigit_only: false, cat: StyleId::KeyMode }
    } else if r == 4 && c == 2 {
        Btn { label: "BIN", act: Action::Base(Base::Bin), inv: Action::Nothing, keys: "B", hexdigit_only: false, cat: StyleId::KeyMode }
    } else if r == 4 && c == 3 {
        Btn { label: "AND", act: Action::Op(Op::And), inv: Action::Nothing, keys: "&", hexdigit_only: false, cat: StyleId::KeyBitwise }
    } else if r == 4 && c == 4 {
        Btn { label: "OR", act: Action::Op(Op::Or), inv: Action::Nothing, keys: "|", hexdigit_only: false, cat: StyleId::KeyBitwise }
    } else if r == 4 && c == 5 {
        Btn { label: "XOR", act: Action::Op(Op::Xor), inv: Action::Nothing, keys: "#", hexdigit_only: false, cat: StyleId::KeyBitwise }
    } else if r == 5 && c == 0 {
        Btn { label: "NOT", act: Action::Unary(Unary::Not), inv: Action::Nothing, keys: "~", hexdigit_only: false, cat: StyleId::KeyBitwise }
    } else if r == 5 && c == 1 {
        Btn { label: "<<", act: Action::Op(Op::Shl), inv: Action::Nothing, keys: "<", hexdigit_only: false, cat: StyleId::KeyBitwise }
    } else if r == 5 && c == 2 {
        Btn { label: ">>", act: Action::Op(Op::Shr), inv: Action::Nothing, keys: ">", hexdigit_only: false, cat: StyleId::KeyBitwise }
    } else if r == 5 && c == 3 {
        Btn { label: "MOD", act: Action::Op(Op::Mod), inv: Action::Nothing, keys: "\\", hexdigit_only: false, cat: StyleId::KeyBitwise }
    } else if r == 5 && c == 4 {
        Btn { label: "MC", act: Action::Mclr, inv: Action::Nothing, keys: "K", hexdigit_only: false, cat: StyleId::KeyMemory }
    } else if r == 5 && c == 5 {
        Btn { label: "ANS", act: Action::Ans, inv: Action::Nothing, keys: "A", hexdigit_only: false, cat: StyleId::KeyMemory }
    } else if r == 6 && c == 0 {
        Btn { label: "A", act: Action::Digit(10), inv: Action::Nothing, keys: "aA", hexdigit_only: true, cat: StyleId::KeyHexdigit }
    } else if r == 6 && c == 1 {
        Btn { label: "B", act: Action::Digit(11), inv: Action::Nothing, keys: "bB", hexdigit_only: true, cat: StyleId::KeyHexdigit }
    } else if r == 6 && c == 2 {
        Btn { label: "C", act: Action::Digit(12), inv: Action::Nothing, keys: "cC", hexdigit_only: true, cat: StyleId::KeyHexdigit }
    } else if r == 6 && c == 3 {
        Btn { label: "D", act: Action::Digit(13), inv: Action::Nothing, keys: "dD", hexdigit_only: true, cat: StyleId::KeyHexdigit }
    } else if r == 6 && c == 4 {
        Btn { label: "E", act: Action::Digit(14), inv: Action::Nothing, keys: "eE", hexdigit_only: true, cat: StyleId::KeyHexdigit }
    } else if r == 6 && c == 5 {
        Btn { label: "F", act: Action::Digit(15), inv: Action::Nothing, keys: "fF", hexdigit_only: true, cat: StyleId::KeyHexdigit }
    } else if r == 7 && c == 0 {
        Btn { label: "7", act: Action::Digit(7), inv: Action::Nothing, keys: "7", hexdigit_only: false, cat: StyleId::KeyDigit }
    } else if r == 7 && c == 1 {
        Btn { label: "8", act: Action::Digit(8), inv: Action::Nothing, keys: "8", hexdigit_only: false, cat: StyleId::KeyDigit }
    } else if r == 7 && c == 2 {
        Btn { label: "9", act: Action::Digit(9), inv: Action::Nothing, keys: "9", hexdigit_only: false, cat: StyleId::KeyDigit }
    } else if r == 7 && c == 3 {
        Btn { label: "/", act: Action::Op(Op::Div), inv: Action::Nothing, keys: "/", hexdigit_only: false, cat: StyleId::KeyOperator }
    } else if r == 8 && c == 0 {
        Btn { label: "4", act: Action::Digit(4), inv: Action::Nothing, keys: "4", hexdigit_only: false, cat: StyleId::KeyDigit }
    } else if r == 8 && c == 1 {
        Btn { label: "5", act: Action::Digit(5), inv: Action::Nothing, keys: "5", hexdigit_only: false, cat: StyleId::KeyDigit }
    } else if r == 8 && c == 2 {
        Btn { label: "6", act: Action::Digit(6), inv: Action::Nothing, keys: "6", hexdigit_only: false, cat: StyleId::KeyDigit }
    } else if r == 8 && c == 3 {
        Btn { label: "*", act: Action::Op(Op::Mul), inv: Action::Nothing, keys: "*", hexdigit_only: false, cat: StyleId::KeyOperator }
    } else if r == 9 && c == 0 {
        Btn { label: "1", act: Action::Digit(1), inv: Action::Nothing, keys: "1", hexdigit_only: false, cat: StyleId::KeyDigit }
    } else if r == 9 && c == 1 {
        Btn { label: "2", act: Action::Digit(2), inv: Action::Nothing, keys: "2", hexdigit_only: false, cat: StyleId::KeyDigit }
    } else if r == 9 && c == 2 {
        Btn { label: "3", act: Action::Digit(3), inv: Action::Nothing, keys: "3", hexdigit_only: false, cat: StyleId::KeyDigit }
    } else if r == 9 && c == 3 {
        Btn { label: "-", act: Action::Op(Op::Sub), inv: Action::Nothing, keys: "-", hexdigit_only: false, cat: StyleId::KeyOperator }
    } else if r == 10 && c == 0 {
        Btn { label: "0", act: Action::Digit(0), inv: Action::Nothing, keys: "0", hexdigit_only: false, cat: StyleId::KeyDigit }
    } else if r == 10 && c == 1 {
        Btn { label: ".", act: Action::Point, inv: Action::Nothing, keys: ".", hexdigit_only: false, cat: StyleId::KeyDigit }
    } else if r == 10 && c == 2 {
        Btn { label: "+/-", act: Action::Sign, inv: Action::Nothing, keys: "_", hexdigit_only: false, cat: StyleId::KeyDigit }
    } else if r == 10 && c == 3 {
        Btn { label: "+", act: Action::Op(Op::Add), inv: Action::Nothing, keys: "+", hexdigit_only: false, cat: StyleId::KeyOperator }
    } else if r == 11 && c == 0 {
        Btn { label: "C", act: Action::Clear, inv: Action::Nothing, keys: "", hexdigit_only: false, cat: StyleId::KeyEdit }
    } else if r == 11 && c == 1 {
        Btn { label: "AC", act: Action::AllClear, inv: Action::Nothing, keys: "", hexdigit_only: false, cat: StyleId::KeyEdit }
    } else if r == 11 && c == 2 {
        Btn { label: "DEL", act: Action::Backspace, inv: Action::Nothing, keys: "", hexdigit_only: false, cat: StyleId::KeyEdit }
    } else if r == 11 && c == 3 {
        Btn { label: "=", act: Action::Equals, inv: Action::Nothing, keys: "=", hexdigit_only: false, cat: StyleId::KeyEquals }
    } else {
        Btn { label: "", act: Action::Nothing, inv: Action::Nothing, keys: "", hexdigit_only: false, cat: StyleId::KeyDigit }
    }
}


/// Buttons in all.
pub const N_BUTTONS: usize = 62;

/// Row and column of the `k`-th button in reading order.
pub open spec fn flat_pos(k: int) -> (int, int) {
    if k < 42 {
        (k / 6, k % 6)
    } else {
        (7 + (k - 42) / 4, (k - 42) % 4)
    }
}

pub fn flat_pos_exec(k: usize) -> (p: (usize, usize))
    requires
        k < N_BUTTONS,
    ensures
        (p.0 as int, p.1 as int) == flat_pos(k as int),
        p.0 < NROWS,
        (p.1 as int) < row_len(p.0 as int),
{
    if k < 42 {
        (k / 6, k % 6)
    } else {
        (7 + (k - 42) / 4, (k - 42) % 4)
    }
}

/// Whether `ch` is one of the shortcut keys in `keys`.
pub open spec fn key_in(keys: Seq<char>, ch: int) -> bool {
    exists|i: int| 0 <= i < keys.len() && (keys[i] as u32) as int == ch
}

fn key_in_exec(keys: &str, ch: i32) -> (b: bool)
    ensures
        b == key_in(keys@, ch as int),
{
    let v = str_chars(keys);
    let mut i: usize = 0;
    while i < v.len()
        invariant
            v@ == keys@,
            i <= v@.len(),
            forall|j: int| 0 <= j < i ==> (v@[j] as u32) as int != ch,
        decreases v@.len() - i,
    {
        let cu = v[i] as u32;
        if ch >= 0 && cu == ch as u32 {
            return true;
        }
        i += 1;
    }
    false
}

/// The `k`-th button answers key `ch` directly (hex digits aside).
pub open spec fn bound_at(k: int, ch: int) -> bool {
    let (r, c) = flat_pos(k);
    let b = spec_button(r, c);
    !b.hexdigit_only && key_in(b.keys@, ch)
}

/// The first button from position `k` on, in reading order, that key `ch`
/// is bound to.
pub open spec fn first_bound(ch: int, k: int) -> Option<int>
    decreases 62 - k,
{
    if k < 0 || k >= 62 {
        None
    } else if bound_at(k, ch) {
        Some(k)
    } else {
        first_bound(ch, k + 1)
    }
}

fn first_bound_exec(ch: i32) -> (r: Option<usize>)
    ensures
        r matches Some(k) ==> first_bound(ch as int, 0) == Some(k as int) && k < N_BUTTONS,
        r is None ==> first_bound(ch as int, 0) is None,
{
    let mut k: usize = 0;
    while k < N_BUTTONS
        invariant
            k <= N_BUTTONS,
            first_bound(ch as int, 0) == first_bound(ch as int, k as int),
        decreases N_BUTTONS - k,
    {
        let (r, c) = flat_pos_exec(k);
        let b = button(r, c);
        if !b.hexdigit_only && key_in_exec(b.keys, ch) {
            return Some(k);
        }
        k += 1;
    }
    None
}

/// Is `ch` bound to some non-hexdigit button (case-sensitive)?
pub fn key_bound_elsewhere(ch: i32) -> (b: bool)
    ensures
        b == first_bound(ch as int, 0) is Some,
{
    first_bound_exec(ch).is_some()
}

/// The button key `ch` presses in `base`. In HEX mode the letters a-f are
/// digits and outrank function keys; upper-case A-F are too, unless that
/// exact letter is also a function key (D DEC, B BIN, A ANS), so that the
/// base can always be switched back by keyboard.
pub open spec fn spec_find_key(base: Base, ch: int) -> Option<(int, int)> {
    if !(0 <= ch <= 255) {
        None
    } else if base == Base::Hex && 97 <= ch <= 102 {
        Some((6, ch - 97))
    } else if base == Base::Hex && 65 <= ch <= 70 && first_bound(ch, 0) is None {
        Some((6, ch - 65))
    } else {
        match first_bound(ch, 0) {
            Some(k) => Some(flat_pos(k)),
            None => None,
        }
    }
}

pub fn find_key(base: Base, ch: i32) -> (r: Option<(usize, usize)>)
    ensures
        r matches Some(p) ==> spec_find_key(base, ch as int) == Some((p.0 as int, p.1 as int)),
        r is None ==> spec_find_key(base, ch as int) is None,
        r matches Some(p) ==> p.0 < NROWS && (p.1 as int) < row_len(p.0 as int),
{
    if !(0 <= ch && ch <= 0xff) {
        return None;
    }
    if base == Base::Hex {
        if 97 <= ch && ch <= 102 {
            return Some((6, (ch - 97) as usize));
        }
        if 65 <= ch && ch <= 70 && !key_bound_elsewhere(ch) {
            return Some((6, (ch - 65) as usize));
        }
    }
    match first_bound_exec(ch) {
        Some(k) => Some(flat_pos_exec(k)),
        None => None,
    }
}

/// Is this button showing an engine mode that is currently on?
pub open spec fn spec_btn_active(base: Base, inv: bool, b: Btn) -> bool {
    match b.act {
        Action::Base(want) => base == want,
        Action::Inv => inv,
        _ => false,
    }
}

pub fn btn_active(base: Base, inv: bool, b: &Btn) -> (r: bool)
    ensures
        r == spec_btn_active(base, inv, *b),
{
    match b.act {
        Action::Base(want) => base == want,
        Action::Inv => inv,
        _ => false,
    }
}

/// Hex digits work in HEX mode only, the point and EE in decimal only, and
/// a digit only when the base has it.
pub open spec fn spec_btn_enabled(base: Base, b: Btn) -> bool {
    if b.hexdigit_only {
        base == Base::Hex
    } else {
        match b.act {
            Action::Point | Action::Ee => base == Base::Dec,
            Action::Digit(d) => d < spec_radix(base),
            _ => true,
        }
    }
}

pub fn btn_enabled(base: Base, b: &Btn) -> (r: bool)
    ensures
        r == spec_btn_enabled(base, *b),
{
    if b.hexdigit_only {
        return base == Base::Hex;
    }
    match b.act {
        Action::Point | Action::Ee => base == Base::Dec,
        Action::Digit(d) => (d as i64) < base.radix(),
        _ => true,
    }
}

/// Pressing button `b`: nothing when it is disabled; otherwise its action
/// (the second function when INV is latched and the key has one), and
/// whether the INV latch is released afterwards -- by every key but INV.
pub open spec fn spec_press(base: Base, inv: bool, b: Btn) -> Option<(Action, bool)> {
    if !spec_btn_enabled(base, b) {
        None
    } else {
        let a = if inv && b.inv != Action::Nothing {
            b.inv
        } else {
            b.act
        };
        Some((a, b.act != Action::Inv))
    }
}

/// INV is a one-shot latch: a press that goes through releases it unless
/// the key is INV itself; while it is latched, a key with a second
/// function performs that one; a disabled key does nothing at all.
pub proof fn lemma_inv_one_shot(base: Base, inv: bool, b: Btn)
    ensures
        !spec_btn_enabled(base, b) <==> spec_press(base, inv, b) is None,
        spec_press(base, inv, b) matches Some((a, release)) ==> {
            &&& release <==> b.act != Action::Inv
            &&& (inv && b.inv != Action::Nothing) ==> a == b.inv
            &&& !(inv && b.inv != Action::Nothing) ==> a == b.act
        },
{
}

pub fn press_plan(base: Base, inv: bool, b: &Btn) -> (r: Option<(Action, bool)>)
    ensures
        r == spec_press(base, inv, *b),
{
    let use_inv = inv && b.inv != Action::Nothing;
    let a = if use_inv {
        b.inv
    } else {
        b.act
    };
    if !btn_enabled(base, b) {
        return None;
    }
    Some((a, b.act != Action::Inv))
}

// ------------------------------------------------------------- geometry

/// A button's place on screen: column, row and width.
#[derive(Clone, Copy, PartialEq, Eq, Debug, Structural)]
pub struct Rect {
    pub x: i32,
    pub y: i32,
    pub w: i32,
}

/// Where the calculator sits on a terminal of `cols` x `lines`: centred,
/// never above or left of the first cell.
#[derive(Clone, Copy, PartialEq, Eq, Debug, Structural)]
pub struct Layout {
    pub cols: i32,
    pub lines: i32,
    pub ox: i32,
    pub oy: i32,
}

/// Integer division by two that rounds toward zero.
pub open spec fn half(a: int) -> int {
    if a >= 0 {
        a / 2
    } else {
        -((-a) / 2)
    }
}

pub(crate) fn half_exec(a: i32) -> (r: i32)
    requires
        -100000 <= a <= 100000,
    ensures
        r == half(a as int),
{
    if a >= 0 {
        a / 2
    } else {
        -((-a) / 2)
    }
}

pub open spec fn spec_layout(cols: int, lines: int) -> Layout {
    let ox = half(cols - W_FRAME) + 1;
    let oy = half(lines - H_CONTENT) + 1;
    Layout {
        cols: cols as i32,
        lines: lines as i32,
        ox: (if ox < 1 {
            1
        } else {
            ox
        }) as i32,
        oy: (if oy < 1 {
            1
        } else {
            oy
        }) as i32,
    }
}

pub fn layout(cols: i32, lines: i32) -> (l: Layout)
    requires
        0 <= cols <= 65535,
        0 <= lines <= 65535,
    ensures
        l == spec_layout(cols as int, lines as int),
        1 <= l.ox <= 40000,
        1 <= l.oy <= 40000,
{
    let ox = half_exec(cols - W_FRAME) + 1;
    let oy = half_exec(lines - H_CONTENT) + 1;
    Layout {
        cols,
        lines,
        ox: if ox < 1 {
            1
        } else {
            ox
        },
        oy: if oy < 1 {
            1
        } else {
            oy
        },
    }
}

/// Where button (r, c) is drawn: rows start below the five frame lines and
/// a blank, with one more blank line between the two sections; each row
/// shares the inner width evenly.
pub open spec fn spec_rect(l: Layout, r: int, c: int) -> Rect {
    let n = row_len(r);
    let w = (W_INNER as int) / n;
    let pad = ((W_INNER as int) - w * n) / 2;
    let y = l.oy + 6 + r + if r >= NFUNC_ROWS {
        1int
    } else {
        0int
    };
    Rect { x: (l.ox + 1 + pad + c * w) as i32, y: y as i32, w: w as i32 }
}

pub fn rect(l: &Layout, r: usize, c: usize) -> (rc: Rect)
    requires
        1 <= l.ox <= 40000,
        1 <= l.oy <= 40000,
        r < NROWS,
        c < MAX_COLS,
    ensures
        rc == spec_rect(*l, r as int, c as int),
        rc.w == (W_INNER as int) / row_len(r as int),
        rc.w == 12 || rc.w == 18,
        1 <= rc.x <= 40200,
        1 <= rc.y <= 40200,
{
    let n = row_width(r) as i32;
    assert(n == 6 || n == 4);
    let w = W_INNER / n;
    assert(w == 12 || w == 18);
    assert(w * n == 72);
    let pad = (W_INNER - w * n) / 2;
    assert(pad == 0);
    assert(0 <= c as i32 * w <= 90) by (nonlinear_arith)
        requires
            0 <= c < 6,
            0 <= w <= 18,
    ;
    let y = l.oy + 6 + r as i32 + if r >= NFUNC_ROWS {
        1
    } else {
        0
    };
    Rect { x: l.ox + 1 + pad + c as i32 * w, y, w }
}

pub open spec fn abs(x: int) -> int {
    if x < 0 {
        -x
    } else {
        x
    }
}

/// The row moved to, wrapping at either end.
pub open spec fn wrap_row(row: int) -> int {
    if row < 0 {
        NROWS - 1
    } else if row >= NROWS {
        0
    } else {
        row
    }
}

/// Horizontal distance between the centre of button (r, i) and `cx`.
pub open spec fn centre_dist(l: Layout, r: int, i: int, cx: int) -> int {
    abs(spec_rect(l, r, i).x + spec_rect(l, r, i).w / 2 - cx)
}

/// `best` is the first button of row `r` whose centre is nearest `cx`.
pub open spec fn nearest_in_row(l: Layout, r: int, cx: int, best: int) -> bool {
    &&& 0 <= best < row_len(r)
    &&& forall|j: int| 0 <= j < best ==> centre_dist(l, r, best, cx) < #[trigger] centre_dist(l, r, j, cx)
    &&& forall|j: int| best < j < row_len(r) ==> centre_dist(l, r, best, cx) <= #[trigger] centre_dist(l, r, j, cx)
}

/// Move the focus to `row` (wrapping), onto the button nearest the current
/// one's horizontal centre.
pub fn focus_row(l: &Layout, fr: usize, fc: usize, row: i32) -> (f: (usize, usize))
    requires
        1 <= l.ox <= 40000,
        1 <= l.oy <= 40000,
        fr < NROWS,
        fc < MAX_COLS,
    ensures
        f.0 == wrap_row(row as int),
        nearest_in_row(
            *l,
            f.0 as int,
            spec_rect(*l, fr as int, fc as int).x + spec_rect(*l, fr as int, fc as int).w / 2,
            f.1 as int,
        ),
{
    let r: usize = if row < 0 {
        NROWS - 1
    } else if row as usize >= NROWS {
        0
    } else {
        row as usize
    };
    let cur = rect(l, fr, fc);
    let cx = cur.x + cur.w / 2;
    let n = row_width(r);
    let mut best: usize = 0;
    let mut bestd: i32 = i32::MAX;
    let mut i: usize = 0;
    while i < n
        invariant
            1 <= l.ox <= 40000,
            1 <= l.oy <= 40000,
            r < NROWS,
            n == row_len(r as int),
            i <= n,
            cx == spec_rect(*l, fr as int, fc as int).x + spec_rect(*l, fr as int, fc as int).w / 2,
            -100 <= cx <= 100000,
            i == 0 ==> bestd == i32::MAX,
            i > 0 ==> best < i && bestd == centre_dist(*l, r as int, best as int, cx as int),
            i > 0 ==> forall|j: int|
                0 <= j < best ==> bestd < #[trigger] centre_dist(*l, r as int, j, cx as int),
            i > 0 ==> forall|j: int|
                best < j < i ==> bestd <= #[trigger] centre_dist(*l, r as int, j, cx as int),
        decreases n - i,
    {
        let rc = rect(l, r, i);
        let dd = rc.x + rc.w / 2 - cx;
        let d = if dd < 0 {
            -dd
        } else {
            dd
        };
        if d < bestd {
            bestd = d;
            best = i;
        }
        i += 1;
    }
    (r, best)
}

/// Keep the focus on an existing button.
pub fn focus_clamp(fr: usize, fc: usize) -> (f: (usize, usize))
    ensures
        f.0 == if fr >= NROWS {
            NROWS - 1
        } else {
            fr as int
        },
        f.1 == if fc >= row_len(f.0 as int) {
            row_len(f.0 as int) - 1
        } else {
            fc as int
        },
{
    let r = if fr >= NROWS {
        NROWS - 1
    } else {
        fr
    };
    let n = row_width(r);
    let c = if fc >= n {
        n - 1
    } else {
        fc
    };
    (r, c)
}

/// Button (r, c) covers the screen cell (x, y).
pub open spec fn covers(l: Layout, r: int, c: int, x: int, y: int) -> bool {
    let rc = spec_rect(l, r, c);
    y == rc.y && rc.x <= x < rc.x + rc.w
}

/// The first button, in reading order from position `k`, that covers (x, y).
pub open spec fn first_hit(l: Layout, x: int, y: int, k: int) -> Option<int>
    decreases 62 - k,
{
    if k < 0 || k >= 62 {
        None
    } else if covers(l, flat_pos(k).0, flat_pos(k).1, x, y) {
        Some(k)
    } else {
        first_hit(l, x, y, k + 1)
    }
}

/// The position of button (r, c) in reading order.
pub open spec fn flat_index(r: int, c: int) -> int {
    if r < 7 {
        r * 6 + c
    } else {
        42 + (r - 7) * 4 + c
    }
}

proof fn lemma_flat_index(r: int, c: int)
    requires
        0 <= r < NROWS,
        0 <= c < row_len(r),
    ensures
        0 <= flat_index(r, c) < 62,
        flat_pos(flat_index(r, c)) == (r, c),
{
    if r < 7 {
        assert((r * 6 + c) / 6 == r && (r * 6 + c) % 6 == c) by (nonlinear_arith)
            requires
                0 <= c < 6,
        ;
        assert(r * 6 + c < 42) by (nonlinear_arith)
            requires
                0 <= r < 7,
                0 <= c < 6,
        ;
    } else {
        let k = (r - 7) * 4 + c;
        assert(k / 4 == r - 7 && k % 4 == c) by (nonlinear_arith)
            requires
                0 <= c < 4,
                k == (r - 7) * 4 + c,
        ;
        assert(k < 20) by (nonlinear_arith)
            requires
                7 <= r < 12,
                0 <= c < 4,
                k == (r - 7) * 4 + c,
        ;
    }
}

proof fn lemma_flat_pos_valid(k: int)
    requires
        0 <= k < 62,
    ensures
        0 <= flat_pos(k).0 < NROWS,
        0 <= flat_pos(k).1 < row_len(flat_pos(k).0),
        flat_index(flat_pos(k).0, flat_pos(k).1) == k,
{
    if k < 42 {
        assert(k / 6 * 6 + k % 6 == k) by (nonlinear_arith);
    } else {
        assert((k - 42) / 4 * 4 + (k - 42) % 4 == k - 42) by (nonlinear_arith);
    }
}

/// Buttons do not overlap: a cell is covered by at most one.
proof fn lemma_covers_unique(l: Layout, r1: int, c1: int, r2: int, c2: int, x: int, y: int)
    requires
        1 <= l.ox <= 40000,
        1 <= l.oy <= 40000,
        0 <= r1 < NROWS,
        0 <= c1 < row_len(r1),
        0 <= r2 < NROWS,
        0 <= c2 < row_len(r2),
        covers(l, r1, c1, x, y),
        covers(l, r2, c2, x, y),
    ensures
        r1 == r2 && c1 == c2,
{
    let w: int = if r1 <= 6 { 12 } else { 18 };
    assert(spec_rect(l, r1, c1).w == w);
    assert(r1 == r2);
    let x0 = x - l.ox - 1;
    if r1 <= 6 {
        assert(0 <= c1 * 12 <= 60 && 0 <= c2 * 12 <= 60) by (nonlinear_arith)
            requires
                0 <= c1 < 6,
                0 <= c2 < 6,
        ;
        assert(c1 == c2) by (nonlinear_arith)
            requires
                c1 * 12 <= x0 < c1 * 12 + 12,
                c2 * 12 <= x0 < c2 * 12 + 12,
        ;
    } else {
        assert(0 <= c1 * 18 <= 54 && 0 <= c2 * 18 <= 54) by (nonlinear_arith)
            requires
                0 <= c1 < 4,
                0 <= c2 < 4,
        ;
        assert(c1 == c2) by (nonlinear_arith)
            requires
                c1 * 18 <= x0 < c1 * 18 + 18,
                c2 * 18 <= x0 < c2 * 18 + 18,
        ;
    }
}

proof fn lemma_first_hit_from(l: Layout, r: int, c: int, x: int, y: int, k: int)
    requires
        1 <= l.ox <= 40000,
        1 <= l.oy <= 40000,
        0 <= r < NROWS,
        0 <= c < row_len(r),
        covers(l, r, c, x, y),
        0 <= k <= flat_index(r, c),
    ensures
        first_hit(l, x, y, k) == Some(flat_index(r, c)),
    decreases flat_index(r, c) - k,
{
    lemma_flat_index(r, c);
    lemma_flat_pos_valid(k);
    if k < flat_index(r, c) {
        if covers(l, flat_pos(k).0, flat_pos(k).1, x, y) {
            lemma_covers_unique(l, r, c, flat_pos(k).0, flat_pos(k).1, x, y);
        }
        lemma_first_hit_from(l, r, c, x, y, k + 1);
    }
}

/// A click anywhere on a button finds that button, and no other.
pub proof fn lemma_click_hits(l: Layout, r: int, c: int, x: int, y: int)
    requires
        1 <= l.ox <= 40000,
        1 <= l.oy <= 40000,
        0 <= r < NROWS,
        0 <= c < row_len(r),
        covers(l, r, c, x, y),
    ensures
        first_hit(l, x, y, 0) == Some(flat_index(r, c)),
        flat_pos(flat_index(r, c)) == (r, c),
{
    lemma_flat_index(r, c);
    lemma_first_hit_from(l, r, c, x, y, 0);
}

/// The button under a mouse click at (x, y).
pub fn hit_test(l: &Layout, x: i32, y: i32) -> (r: Option<(usize, usize)>)
    requires
        1 <= l.ox <= 40000,
        1 <= l.oy <= 40000,
    ensures
        r matches Some(p) ==> first_hit(*l, x as int, y as int, 0) matches Some(k) && flat_pos(k)
            == (p.0 as int, p.1 as int),
        r is None ==> first_hit(*l, x as int, y as int, 0) is None,
        r matches Some(p) ==> p.0 < NROWS && (p.1 as int) < row_len(p.0 as int),
{
    let mut k: usize = 0;
    while k < N_BUTTONS
        invariant
            1 <= l.ox <= 40000,
            1 <= l.oy <= 40000,
            k <= N_BUTTONS,
            first_hit(*l, x as int, y as int, 0) == first_hit(*l, x as int, y as int, k as int),
        decreases N_BUTTONS - k,
    {
        let (r, c) = flat_pos_exec(k);
        let rc = rect(l, r, c);
        if y == rc.y && x >= rc.x && x < rc.x + rc.w {
            return Some((r, c));
        }
        k += 1;
    }
    None
}

/// `s` right-aligned in a field of `w` columns; when it is too long for
/// the field, its front is clipped and marked with `..`.
pub open spec fn spec_right(s: Seq<char>, w: int) -> Seq<char> {
    if s.len() > w {
        let keep = if w - 2 > 0 {
            w - 2
        } else {
            0
        };
        ".."@ + s.skip(s.len() - keep)
    } else {
        Seq::new((w - s.len()) as nat, |i: int| ' ') + s
    }
}

/// A right-aligned field is exactly `w` columns wide (for `w >= 2`), and
/// ends with all of `s` when `s` fits.
pub proof fn lemma_right_width(s: Seq<char>, w: int)
    requires
        w >= 2,
    ensures
        spec_right(s, w).len() == w,
        s.len() <= w ==> spec_right(s, w).skip(w - s.len()) == s,
        s.len() == w ==> spec_right(s, w) == s,
{
    reveal_strlit("..");
    if s.len() <= w {
        assert(spec_right(s, w).skip(0) =~= spec_right(s, w));
        assert(spec_right(s, w).skip(w - s.len()) =~= s);
    }
}

pub fn draw_right(s: &str, w: i32) -> (r: String)
    requires
        w >= 0,
    ensures
        r@ == spec_right(s@, w as int),
{
    let v = str_chars(s);
    let len = v.len();
    let mut out: Vec<char> = Vec::new();
    if len > w as usize {
        crate::text::push_str(&mut out, "..");
        let keep: usize = if w - 2 > 0 {
            (w - 2) as usize
        } else {
            0
        };
        let tail = crate::text::sub_chars(v.as_slice(), len - keep, len);
        crate::text::push_all(&mut out, tail.as_slice());
        assert(out@ =~= spec_right(s@, w as int));
        return chars_to_string(out.as_slice());
    }
    let pad = w as usize - len;
    let mut i: usize = 0;
    while i < pad
        invariant
            i <= pad,
            out@ == Seq::new(i as nat, |q: int| ' '),
        decreases pad - i,
    {
        out.push(' ');
        i += 1;
        assert(out@ =~= Seq::new(i as nat, |q: int| ' '));
    }
    crate::text::push_all(&mut out, v.as_slice());
    assert(out@ =~= spec_right(s@, w as int));
    chars_to_string(out.as_slice())
}

// ------------------------------------------------------------- mouse

pub open spec fn is_ascii_digit(b: u8) -> bool {
    48 <= b <= 57
}

/// Value of a run of ASCII digits.
pub open spec fn ascii_value(s: Seq<u8>) -> nat
    decreases s.len(),
{
    if s.len() == 0 {
        0
    } else {
        ascii_value(s.drop_last()) * 10 + (s.last() - 48) as nat
    }
}

/// Whether every byte of `s` is an ASCII digit.
pub open spec fn all_digits(s: Seq<u8>) -> bool {
    forall|i: int| 0 <= i < s.len() ==> is_ascii_digit(#[trigger] s[i])
}

/// `s` without a leading sign.
pub open spec fn unsigned_part(s: Seq<u8>) -> Seq<u8> {
    if s.len() > 0 && (s[0] == 45 || s[0] == 43) {
        s.drop_first()
    } else {
        s
    }
}

/// A decimal integer as `i32`'s parser reads it: an optional sign, then at
/// least one digit, and a value that fits.
pub open spec fn spec_parse_i32(s: Seq<u8>) -> Option<i32> {
    let ds = unsigned_part(s);
    if ds.len() == 0 || !all_digits(ds) {
        None
    } else {
        let v: int = if s[0] == 45 {
            -(ascii_value(ds) as int)
        } else {
            ascii_value(ds) as int
        };
        if i32::MIN <= v <= i32::MAX {
            Some(v as i32)
        } else {
            None
        }
    }
}

/// The value of `s[start..]` when it is all ASCII digits, capped just
/// above the `i32` range.
fn capped_digits(s: &[u8], start: usize) -> (r: Option<i64>)
    requires
        start <= s@.len(),
    ensures
        r is Some <==> all_digits(s@.skip(start as int)),
        r matches Some(v) ==> v == if ascii_value(s@.skip(start as int)) <= 0x1_0000_0000 {
            ascii_value(s@.skip(start as int)) as int
        } else {
            0x1_0000_0001
        },
{
    let ghost ds = s@.skip(start as int);
    let mut v: i64 = 0;
    let mut i: usize = start;
    while i < s.len()
        invariant
            start <= i <= s@.len(),
            ds == s@.skip(start as int),
            forall|j: int| 0 <= j < i - start ==> is_ascii_digit(#[trigger] ds[j]),
            0 <= v <= 0x1_0000_0001,
            v == if ascii_value(ds.take(i - start)) <= 0x1_0000_0000 {
                ascii_value(ds.take(i - start)) as int
            } else {
                0x1_0000_0001
            },
        decreases s@.len() - i,
    {
        let b = s[i];
        assert(ds[i - start] == b);
        if !(48 <= b && b <= 57) {
            return None;
        }
        assert(ds.take(i + 1 - start).drop_last() == ds.take(i - start));
        let next = v * 10 + (b - 48) as i64;
        v = if next > 0x1_0000_0000 {
            0x1_0000_0001
        } else {
            next
        };
        i += 1;
    }
    assert(ds.take(s@.len() - start) == ds);
    Some(v)
}

pub fn parse_i32(s: &[u8]) -> (r: Option<i32>)
    ensures
        r == spec_parse_i32(s@),
{
    let len = s.len();
    let neg = len > 0 && s[0] == 45;
    let start: usize = if len > 0 && (s[0] == 45 || s[0] == 43) {
        1
    } else {
        0
    };
    let ghost ds = unsigned_part(s@);
    assert(ds == s@.skip(start as int));
    if start >= len {
        return None;
    }
    let v = match capped_digits(s, start) {
        Some(v) => v,
        None => {
            return None;
        },
    };
    let sv: i64 = if neg {
        -v
    } else {
        v
    };
    if sv < i32::MIN as i64 || sv > i32::MAX as i64 {
        None
    } else {
        Some(sv as i32)
    }
}

/// Pieces completed so far when cutting `s` at every `sep`, and the piece
/// in progress.
pub open spec fn split_bytes_acc(s: Seq<u8>, sep: u8) -> (Seq<Seq<u8>>, Seq<u8>)
    decreases s.len(),
{
    if s.len() == 0 {
        (Seq::empty(), Seq::empty())
    } else {
        let (ps, cur) = split_bytes_acc(s.drop_last(), sep);
        if s.last() == sep {
            (ps.push(cur), Seq::empty())
        } else {
            (ps, cur.push(s.last()))
        }
    }
}

/// `s` cut at every byte `sep`.
pub open spec fn split_bytes(s: Seq<u8>, sep: u8) -> Seq<Seq<u8>> {
    let (ps, cur) = split_bytes_acc(s, sep);
    ps.push(cur)
}

fn split_semicolons(s: &[u8]) -> (r: Vec<Vec<u8>>)
    ensures
        r.deep_view() == split_bytes(s@, 59),
{
    let mut ps: Vec<Vec<u8>> = Vec::new();
    let mut cur: Vec<u8> = Vec::new();
    let mut i: usize = 0;
    while i < s.len()
        invariant
            i <= s@.len(),
            (ps.deep_view(), cur@) == split_bytes_acc(s@.take(i as int), 59),
        decreases s@.len() - i,
    {
        assert(s@.take(i + 1).drop_last() == s@.take(i as int));
        let c = s[i];
        if c == 59 {
            let ghost prev = ps.deep_view();
            let done = cur;
            assert(done.deep_view() =~= done@);
            ps.push(done);
            cur = Vec::new();
            assert(ps.deep_view() =~= prev.push(done@));
        } else {
            cur.push(c);
        }
        i += 1;
    }
    assert(s@.take(s@.len() as int) == s@);
    let ghost prev = ps.deep_view();
    let ghost last = cur@;
    assert(cur.deep_view() =~= cur@);
    ps.push(cur);
    assert(ps.deep_view() =~= prev.push(last));
    ps
}

/// The position of a plain left-button press in an SGR mouse report body
/// (`b;x;y`): three integers, and a button code with no modifier, motion
/// or other button bits (`b & 0x43 == 0`).
pub open spec fn spec_mouse_press(s: Seq<u8>) -> Option<(i32, i32)> {
    let parts = split_bytes(s, 59);
    if parts.len() != 3 {
        None
    } else {
        match (spec_parse_i32(parts[0]), spec_parse_i32(parts[1]), spec_parse_i32(parts[2])) {
            (Some(b), Some(x), Some(y)) => if b & 0x43 == 0 {
                Some((x, y))
            } else {
                None
            },
            _ => None,
        }
    }
}

pub fn parse_mouse_press(s: &[u8]) -> (r: Option<(i32, i32)>)
    ensures
        r == spec_mouse_press(s@),
{
    let parts = split_semicolons(s);
    if parts.len() != 3 {
        return None;
    }
    assert(parts.deep_view()[0] == parts@[0]@);
    assert(parts.deep_view()[1] == parts@[1]@);
    assert(parts.deep_view()[2] == parts@[2]@);
    let b = parse_i32(parts[0].as_slice());
    let x = parse_i32(parts[1].as_slice());
    let y = parse_i32(parts[2].as_slice());
    match (b, x, y) {
        (Some(b), Some(x), Some(y)) => if b & 0x43 == 0 {
            Some((x, y))
        } else {
            None
        },
        _ => None,
    }
}

} // verus!
