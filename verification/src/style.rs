//! The style model behind a theme: colours, attributes, how one style is
//! laid over another, and the SGR escape sequence a style turns into.

use vstd::prelude::*;
use crate::text::{dec_chars, push_dec, push_str};

verus! {

/// One style slot per thing the UI can paint. Key slots are the calculator
/// function categories -- that is what a theme colours by.
#[derive(Clone, Copy, PartialEq, Eq, Debug, Structural)]
pub enum StyleId {
    Frame,
    Title,
    Status,
    StatusMode,
    StatusInv,
    StatusMem,
    Display,
    DisplayError,
    Aux,
    Hint,
    HelpTitle,
    HelpText,
    KeyDigit,
    KeyHexdigit,
    KeyOperator,
    KeySci,
    KeyBitwise,
    KeyMode,
    KeyMemory,
    KeyEdit,
    KeyEquals,
    KeyParen,
}

/// Visual state a slot can be drawn in.
#[derive(Clone, Copy, PartialEq, Eq, Debug, Structural)]
pub enum StyleState {
    Normal,
    Focus,
    Active,
    Disabled,
}

/// How many colours the terminal can show.
#[derive(Clone, Copy, PartialEq, Eq, Debug, Structural)]
pub enum ColorMode {
    Auto,
    TrueColor,
    C256,
    C16,
    /// No colour at all (the `none` mode).
    NoColor,
}

pub const N_STYLES: usize = 22;
pub const N_STATES: usize = 4;
pub const N_CELLS: usize = 88;

/// Position of a slot in the style tables.
pub open spec fn sid(id: StyleId) -> int {
    match id {
        StyleId::Frame => 0,
        StyleId::Title => 1,
        StyleId::Status => 2,
        StyleId::StatusMode => 3,
        StyleId::StatusInv => 4,
        StyleId::StatusMem => 5,
        StyleId::Display => 6,
        StyleId::DisplayError => 7,
        StyleId::Aux => 8,
        StyleId::Hint => 9,
        StyleId::HelpTitle => 10,
        StyleId::HelpText => 11,
        StyleId::KeyDigit => 12,
        StyleId::KeyHexdigit => 13,
        StyleId::KeyOperator => 14,
        StyleId::KeySci => 15,
        StyleId::KeyBitwise => 16,
        StyleId::KeyMode => 17,
        StyleId::KeyMemory => 18,
        StyleId::KeyEdit => 19,
        StyleId::KeyEquals => 20,
        StyleId::KeyParen => 21,
    }
}

/// Position of a state in the per-slot tables.
pub open spec fn stid(st: StyleState) -> int {
    match st {
        StyleState::Normal => 0,
        StyleState::Focus => 1,
        StyleState::Active => 2,
        StyleState::Disabled => 3,
    }
}

/// The slot at table position `i`.
pub open spec fn id_at(i: int) -> StyleId {
    if i <= 0 {
        StyleId::Frame
    } else if i == 1 {
        StyleId::Title
    } else if i == 2 {
        StyleId::Status
    } else if i == 3 {
        StyleId::StatusMode
    } else if i == 4 {
        StyleId::StatusInv
    } else if i == 5 {
        StyleId::StatusMem
    } else if i == 6 {
        StyleId::Display
    } else if i == 7 {
        StyleId::DisplayError
    } else if i == 8 {
        StyleId::Aux
    } else if i == 9 {
        StyleId::Hint
    } else if i == 10 {
        StyleId::HelpTitle
    } else if i == 11 {
        StyleId::HelpText
    } else if i == 12 {
        StyleId::KeyDigit
    } else if i == 13 {
        StyleId::KeyHexdigit
    } else if i == 14 {
        StyleId::KeyOperator
    } else if i == 15 {
        StyleId::KeySci
    } else if i == 16 {
        StyleId::KeyBitwise
    } else if i == 17 {
        StyleId::KeyMode
    } else if i == 18 {
        StyleId::KeyMemory
    } else if i == 19 {
        StyleId::KeyEdit
    } else if i == 20 {
        StyleId::KeyEquals
    } else {
        StyleId::KeyParen
    }
}

/// The state at table position `j`.
pub open spec fn state_at(j: int) -> StyleState {
    if j <= 0 {
        StyleState::Normal
    } else if j == 1 {
        StyleState::Focus
    } else if j == 2 {
        StyleState::Active
    } else {
        StyleState::Disabled
    }
}

pub proof fn lemma_id_index(id: StyleId)
    ensures
        0 <= sid(id) < 22,
        id_at(sid(id)) == id,
{
}

pub proof fn lemma_state_index(st: StyleState)
    ensures
        0 <= stid(st) < 4,
        state_at(stid(st)) == st,
{
}

impl StyleId {
    pub fn index(self) -> (i: usize)
        ensures
            i == sid(self),
    {
        match self {
            StyleId::Frame => 0,
            StyleId::Title => 1,
            StyleId::Status => 2,
            StyleId::StatusMode => 3,
            StyleId::StatusInv => 4,
            StyleId::StatusMem => 5,
            StyleId::Display => 6,
            StyleId::DisplayError => 7,
            StyleId::Aux => 8,
            StyleId::Hint => 9,
            StyleId::HelpTitle => 10,
            StyleId::HelpText => 11,
            StyleId::KeyDigit => 12,
            StyleId::KeyHexdigit => 13,
            StyleId::KeyOperator => 14,
            StyleId::KeySci => 15,
            StyleId::KeyBitwise => 16,
            StyleId::KeyMode => 17,
            StyleId::KeyMemory => 18,
            StyleId::KeyEdit => 19,
            StyleId::KeyEquals => 20,
            StyleId::KeyParen => 21,
        }
    }

    /// Every slot, in table order.
    pub fn at(i: usize) -> (id: StyleId)
        requires
            i < 22,
        ensures
            id == id_at(i as int),
            sid(id) == i,
    {
        if i == 0 {
            StyleId::Frame
        } else if i == 1 {
            StyleId::Title
        } else if i == 2 {
            StyleId::Status
        } else if i == 3 {
            StyleId::StatusMode
        } else if i == 4 {
            StyleId::StatusInv
        } else if i == 5 {
            StyleId::StatusMem
        } else if i == 6 {
            StyleId::Display
        } else if i == 7 {
            StyleId::DisplayError
        } else if i == 8 {
            StyleId::Aux
        } else if i == 9 {
            StyleId::Hint
        } else if i == 10 {
            StyleId::HelpTitle
        } else if i == 11 {
            StyleId::HelpText
        } else if i == 12 {
            StyleId::KeyDigit
        } else if i == 13 {
            StyleId::KeyHexdigit
        } else if i == 14 {
            StyleId::KeyOperator
        } else if i == 15 {
            StyleId::KeySci
        } else if i == 16 {
            StyleId::KeyBitwise
        } else if i == 17 {
            StyleId::KeyMode
        } else if i == 18 {
            StyleId::KeyMemory
        } else if i == 19 {
            StyleId::KeyEdit
        } else if i == 20 {
            StyleId::KeyEquals
        } else {
            StyleId::KeyParen
        }
    }
}

impl StyleState {
    pub fn index(self) -> (i: usize)
        ensures
            i == stid(self),
    {
        match self {
            StyleState::Normal => 0,
            StyleState::Focus => 1,
            StyleState::Active => 2,
            StyleState::Disabled => 3,
        }
    }

    pub fn at(j: usize) -> (st: StyleState)
        requires
            j < 4,
        ensures
            st == state_at(j as int),
            stid(st) == j,
    {
        if j == 0 {
            StyleState::Normal
        } else if j == 1 {
            StyleState::Focus
        } else if j == 2 {
            StyleState::Active
        } else {
            StyleState::Disabled
        }
    }
}

// ------------------------------------------------------------------ model

#[derive(Clone, Copy, PartialEq, Eq, Debug, Structural)]
pub enum ColorKind {
    /// The terminal's own colour.
    Terminal,
    Idx,
    Rgb,
}

/// A colour: the terminal default, a palette index, or an RGB triple.
#[derive(Clone, Copy, PartialEq, Eq, Debug, Structural)]
pub struct Color {
    pub kind: ColorKind,
    pub idx: i32,
    pub r: i32,
    pub g: i32,
    pub b: i32,
}

pub const ATTR_BOLD: u32 = 0x01;
pub const ATTR_DIM: u32 = 0x02;
pub const ATTR_ITALIC: u32 = 0x04;
pub const ATTR_UNDER: u32 = 0x08;
pub const ATTR_REVERSE: u32 = 0x10;
/// Request: exchange foreground and background.
pub const ATTR_SWAP: u32 = 0x20;
/// Request: drop inherited attributes.
pub const ATTR_CLEAR: u32 = 0x40;
/// Result: the exchange was applied.
pub const ATTR_SWAPPED: u32 = 0x80;

pub const SET_FG: u32 = 0x1;
pub const SET_BG: u32 = 0x2;

/// Colours and attributes, with a record of which colours were given.
#[derive(Clone, Copy, PartialEq, Eq, Debug, Structural)]
pub struct Style {
    pub fg: Color,
    pub bg: Color,
    pub attrs: u32,
    pub set: u32,
}

/// The terminal's own colour.
pub open spec fn no_color() -> Color {
    Color { kind: ColorKind::Terminal, idx: 0, r: 0, g: 0, b: 0 }
}

/// The style that sets nothing.
pub open spec fn empty_style() -> Style {
    Style { fg: no_color(), bg: no_color(), attrs: 0, set: 0 }
}

/// Palette indices and channels stay within 0..=255.
pub open spec fn color_wf(c: Color) -> bool {
    &&& 0 <= c.idx <= 255
    &&& 0 <= c.r <= 255
    &&& 0 <= c.g <= 255
    &&& 0 <= c.b <= 255
}

pub open spec fn style_wf(s: Style) -> bool {
    color_wf(s.fg) && color_wf(s.bg)
}

pub fn color_none() -> (c: Color)
    ensures
        c == no_color(),
{
    Color { kind: ColorKind::Terminal, idx: 0, r: 0, g: 0, b: 0 }
}

pub fn style_empty() -> (s: Style)
    ensures
        s == empty_style(),
{
    Style { fg: color_none(), bg: color_none(), attrs: 0, set: 0 }
}

/// `src` laid over `dst`: given colours replace, attributes accumulate,
/// unless `src` asks to clear them.
pub open spec fn merged(dst: Style, src: Style) -> Style {
    let fg = if src.set & SET_FG != 0 { src.fg } else { dst.fg };
    let set1 = if src.set & SET_FG != 0 { dst.set | SET_FG } else { dst.set };
    let bg = if src.set & SET_BG != 0 { src.bg } else { dst.bg };
    let set2 = if src.set & SET_BG != 0 { set1 | SET_BG } else { set1 };
    let attrs = if src.attrs & ATTR_CLEAR != 0 {
        src.attrs & !ATTR_CLEAR
    } else {
        dst.attrs | src.attrs
    };
    Style { fg, bg, attrs, set: set2 }
}

/// Laying the same style twice is laying it once; a colour the upper style
/// gives always wins; without `none`, attributes only accumulate.
pub proof fn lemma_merge_laws(d: Style, s: Style)
    ensures
        merged(merged(d, s), s) == merged(d, s),
        s.set & SET_FG != 0 ==> merged(d, s).fg == s.fg,
        s.set & SET_FG == 0 ==> merged(d, s).fg == d.fg,
        s.set & SET_BG != 0 ==> merged(d, s).bg == s.bg,
        s.set & SET_BG == 0 ==> merged(d, s).bg == d.bg,
        s.attrs & ATTR_CLEAR == 0 ==> merged(d, s).attrs & d.attrs == d.attrs,
        s.attrs & ATTR_CLEAR == 0 ==> merged(d, s).attrs & s.attrs == s.attrs,
{
    let m = merged(d, s);
    let (da, sa, ds, ss) = (d.attrs, s.attrs, d.set, s.set);
    assert(((da | sa) | sa) == (da | sa) && ((da | sa) & da) == da && ((da | sa) & sa) == sa)
        by (bit_vector);
    assert((sa & !0x40u32) & 0x40u32 == 0) by (bit_vector);
    assert(((ds | 1u32) | 1u32) == (ds | 1u32) && ((ds | 2u32) | 2u32) == (ds | 2u32)) by (bit_vector);
    assert((((ds | 1u32) | 2u32) | 1u32) == ((ds | 1u32) | 2u32)) by (bit_vector);
    assert((((ds | 1u32) | 2u32) | 1u32) | 2u32 == ((ds | 1u32) | 2u32)) by (bit_vector);
    assert((((ds | 1u32) | 1u32) | 2u32) == ((ds | 1u32) | 2u32)) by (bit_vector);
    assert(((ds | 2u32) | 2u32) == (ds | 2u32)) by (bit_vector);
}

/// Apply `src` on top of `dst`.
pub fn merge(dst: &mut Style, src: &Style)
    ensures
        *final(dst) == merged(*old(dst), *src),
{
    if src.set & SET_FG != 0 {
        dst.fg = src.fg;
        dst.set = dst.set | SET_FG;
    }
    if src.set & SET_BG != 0 {
        dst.bg = src.bg;
        dst.set = dst.set | SET_BG;
    }
    if src.attrs & ATTR_CLEAR != 0 {
        dst.attrs = src.attrs & !ATTR_CLEAR;
    } else {
        dst.attrs = dst.attrs | src.attrs;
    }
}

// ------------------------------------------------------- colour maps

pub fn clamp255(v: i32) -> (r: i32)
    ensures
        r == if v < 0 {
            0
        } else if v > 255 {
            255
        } else {
            v
        },
{
    if v < 0 {
        0
    } else if v > 255 {
        255
    } else {
        v
    }
}

pub open spec fn abs_int(x: int) -> int {
    if x < 0 {
        -x
    } else {
        x
    }
}

/// Nearest entry in the 6x6x6 cube or, for near-greys, the grey ramp.
pub open spec fn cube256(r: int, g: int, b: int) -> int {
    if abs_int(r - g) < 12 && abs_int(g - b) < 12 && abs_int(r - b) < 12 {
        if r < 8 {
            16
        } else if r > 248 {
            231
        } else {
            232 + (r - 8) * 24 / 241
        }
    } else {
        16 + 36 * (r * 5 / 255) + 6 * (g * 5 / 255) + (b * 5 / 255)
    }
}

pub fn quantize256(r: i32, g: i32, b: i32) -> (q: i32)
    requires
        0 <= r <= 255,
        0 <= g <= 255,
        0 <= b <= 255,
    ensures
        q == cube256(r as int, g as int, b as int),
        16 <= q <= 255,
{
    let dr = if r - g < 0 { g - r } else { r - g };
    let dg = if g - b < 0 { b - g } else { g - b };
    let db = if r - b < 0 { b - r } else { r - b };

    if dr < 12 && dg < 12 && db < 12 {
        if r < 8 {
            return 16;
        }
        if r > 248 {
            return 231;
        }
        assert(0 <= (r - 8) * 24 <= 240 * 24) by (nonlinear_arith)
            requires
                8 <= r <= 248,
        ;
        return 232 + (r - 8) * 24 / 241;
    }
    assert(0 <= r * 5 <= 1275 && 0 <= g * 5 <= 1275 && 0 <= b * 5 <= 1275) by (nonlinear_arith)
        requires
            0 <= r <= 255,
            0 <= g <= 255,
            0 <= b <= 255,
    ;
    16 + 36 * (r * 5 / 255) + 6 * (g * 5 / 255) + (b * 5 / 255)
}

/// xterm's first sixteen palette entries.
pub open spec fn base16(i: int) -> (int, int, int) {
    if i == 0 {
        (0, 0, 0)
    } else if i == 1 {
        (205, 0, 0)
    } else if i == 2 {
        (0, 205, 0)
    } else if i == 3 {
        (205, 205, 0)
    } else if i == 4 {
        (0, 0, 238)
    } else if i == 5 {
        (205, 0, 205)
    } else if i == 6 {
        (0, 205, 205)
    } else if i == 7 {
        (229, 229, 229)
    } else if i == 8 {
        (127, 127, 127)
    } else if i == 9 {
        (255, 0, 0)
    } else if i == 10 {
        (0, 255, 0)
    } else if i == 11 {
        (255, 255, 0)
    } else if i == 12 {
        (92, 92, 255)
    } else if i == 13 {
        (255, 0, 255)
    } else if i == 14 {
        (0, 255, 255)
    } else {
        (255, 255, 255)
    }
}

fn base16_entry(i: usize) -> (e: (i32, i32, i32))
    requires
        i < 16,
    ensures
        (e.0 as int, e.1 as int, e.2 as int) == base16(i as int),
        0 <= e.0 <= 255,
        0 <= e.1 <= 255,
        0 <= e.2 <= 255,
{
    if i == 0 {
        (0, 0, 0)
    } else if i == 1 {
        (205, 0, 0)
    } else if i == 2 {
        (0, 205, 0)
    } else if i == 3 {
        (205, 205, 0)
    } else if i == 4 {
        (0, 0, 238)
    } else if i == 5 {
        (205, 0, 205)
    } else if i == 6 {
        (0, 205, 205)
    } else if i == 7 {
        (229, 229, 229)
    } else if i == 8 {
        (127, 127, 127)
    } else if i == 9 {
        (255, 0, 0)
    } else if i == 10 {
        (0, 255, 0)
    } else if i == 11 {
        (255, 255, 0)
    } else if i == 12 {
        (92, 92, 255)
    } else if i == 13 {
        (255, 0, 255)
    } else if i == 14 {
        (0, 255, 255)
    } else {
        (255, 255, 255)
    }
}

/// Squared distance from (r, g, b) to palette entry `i`.
pub open spec fn dist16(r: int, g: int, b: int, i: int) -> int {
    let (pr, pg, pb) = base16(i);
    (r - pr) * (r - pr) + (g - pg) * (g - pg) + (b - pb) * (b - pb)
}

/// `k` is the first of the sixteen entries nearest to (r, g, b).
pub open spec fn is_nearest16(r: int, g: int, b: int, k: int) -> bool {
    &&& 0 <= k < 16
    &&& forall|j: int| 0 <= j < k ==> dist16(r, g, b, k) < #[trigger] dist16(r, g, b, j)
    &&& forall|j: int| k < j < 16 ==> dist16(r, g, b, k) <= #[trigger] dist16(r, g, b, j)
}

/// Only one entry can be the first nearest one.
pub proof fn lemma_nearest16_unique(r: int, g: int, b: int, k1: int, k2: int)
    requires
        is_nearest16(r, g, b, k1),
        is_nearest16(r, g, b, k2),
    ensures
        k1 == k2,
{
    if k1 < k2 {
        assert(dist16(r, g, b, k2) < dist16(r, g, b, k1));
    } else if k2 < k1 {
        assert(dist16(r, g, b, k1) < dist16(r, g, b, k2));
    }
}

/// The palette entry chosen for (r, g, b) when only sixteen colours show.
pub open spec fn nearest16(r: int, g: int, b: int) -> int {
    choose|k: int| is_nearest16(r, g, b, k)
}

pub fn quantize16(r: i32, g: i32, b: i32) -> (q: i32)
    requires
        0 <= r <= 255,
        0 <= g <= 255,
        0 <= b <= 255,
    ensures
        is_nearest16(r as int, g as int, b as int, q as int),
        q == nearest16(r as int, g as int, b as int),
{
    let mut best: i32 = 7;
    let mut bestd: i32 = i32::MAX;
    let mut i: usize = 0;
    while i < 16
        invariant
            0 <= r <= 255,
            0 <= g <= 255,
            0 <= b <= 255,
            i <= 16,
            i == 0 ==> bestd == i32::MAX,
            i > 0 ==> 0 <= best < i && bestd == dist16(r as int, g as int, b as int, best as int),
            i > 0 ==> forall|j: int|
                0 <= j < best ==> bestd < #[trigger] dist16(r as int, g as int, b as int, j),
            i > 0 ==> forall|j: int|
                best < j < i ==> bestd <= #[trigger] dist16(r as int, g as int, b as int, j),
        decreases 16 - i,
    {
        let (pr, pg, pb) = base16_entry(i);
        let dr = r - pr;
        let dg = g - pg;
        let db = b - pb;
        assert(0 <= dr * dr <= 65025 && 0 <= dg * dg <= 65025 && 0 <= db * db <= 65025)
            by (nonlinear_arith)
            requires
                -255 <= dr <= 255,
                -255 <= dg <= 255,
                -255 <= db <= 255,
        ;
        let d = dr * dr + dg * dg + db * db;
        assert(d == dist16(r as int, g as int, b as int, i as int));
        if d < bestd {
            bestd = d;
            best = i as i32;
        }
        i += 1;
    }
    proof {
        lemma_nearest16_exists_is(r as int, g as int, b as int, best as int);
    }
    best
}

proof fn lemma_nearest16_exists_is(r: int, g: int, b: int, k: int)
    requires
        is_nearest16(r, g, b, k),
    ensures
        nearest16(r, g, b) == k,
{
    let c = nearest16(r, g, b);
    assert(is_nearest16(r, g, b, c));
    lemma_nearest16_unique(r, g, b, c, k);
}

// ----------------------------------------------------------- SGR text

/// The SGR parameter for a palette index: the 8 basic colours, the 8
/// bright ones, or an extended index.
pub open spec fn idx_code(idx: int, base: int, ext: int) -> Seq<char> {
    if idx < 8 {
        ";"@ + dec_chars((base + idx) as nat)
    } else if idx < 16 {
        ";"@ + dec_chars((base + 60 + idx - 8) as nat)
    } else {
        ";"@ + dec_chars(ext as nat) + ";5;"@ + dec_chars(idx as nat)
    }
}

/// The SGR parameters that select colour `c` as foreground (or background)
/// on a terminal of the given effective colour mode.
pub open spec fn color_code(c: Color, is_bg: bool, eff: ColorMode) -> Seq<char> {
    let base: int = if is_bg { 40 } else { 30 };
    let ext: int = if is_bg { 48 } else { 38 };
    match c.kind {
        ColorKind::Terminal => Seq::empty(),
        ColorKind::Rgb => {
            let r = if c.r < 0 { 0 } else if c.r > 255 { 255 } else { c.r as int };
            let g = if c.g < 0 { 0 } else if c.g > 255 { 255 } else { c.g as int };
            let b = if c.b < 0 { 0 } else if c.b > 255 { 255 } else { c.b as int };
            if eff == ColorMode::TrueColor {
                ";"@ + dec_chars(ext as nat) + ";2;"@ + dec_chars(r as nat) + ";"@ + dec_chars(
                    g as nat,
                ) + ";"@ + dec_chars(b as nat)
            } else if eff == ColorMode::C256 {
                idx_code(cube256(r, g, b), base, ext)
            } else {
                idx_code(nearest16(r, g, b), base, ext)
            }
        },
        ColorKind::Idx => {
            let idx = if eff == ColorMode::C16 && c.idx > 15 {
                (c.idx % 16) as int
            } else {
                c.idx as int
            };
            idx_code(idx, base, ext)
        },
    }
}

/// The attribute parameters of a style.
pub open spec fn attr_codes(s: Style, eff: ColorMode) -> Seq<char> {
    (if s.attrs & ATTR_BOLD != 0 {
        ";1"@
    } else {
        Seq::empty()
    }) + (if s.attrs & ATTR_DIM != 0 {
        ";2"@
    } else {
        Seq::empty()
    }) + (if s.attrs & ATTR_ITALIC != 0 {
        ";3"@
    } else {
        Seq::empty()
    }) + (if s.attrs & ATTR_UNDER != 0 {
        ";4"@
    } else {
        Seq::empty()
    }) + (if (s.attrs & ATTR_REVERSE != 0) || (eff == ColorMode::NoColor && s.attrs & ATTR_SWAPPED
        != 0) {
        ";7"@
    } else {
        Seq::empty()
    })
}

/// The complete escape sequence that paints in style `s`; without colour,
/// an exchange of foreground and background shows as reverse video.
pub open spec fn sgr_text(s: Style, eff: ColorMode) -> Seq<char> {
    "\x1b[0"@ + attr_codes(s, eff) + (if eff != ColorMode::NoColor {
        color_code(s.fg, false, eff) + color_code(s.bg, true, eff)
    } else {
        Seq::empty()
    }) + "m"@
}

pub open spec fn is_dec_digit(c: char) -> bool {
    '0' <= c && c <= '9'
}

/// SGR parameters: zero or more groups, each a `;` followed by one or more
/// decimal digits.
pub open spec fn param_groups(p: Seq<char>) -> bool {
    &&& forall|i: int| 0 <= i < p.len() ==> p[i] == ';' || is_dec_digit(#[trigger] p[i])
    &&& forall|i: int| 0 <= i < p.len() && #[trigger] p[i] == ';' ==> i + 1 < p.len() && is_dec_digit(p[i + 1])
    &&& p.len() > 0 ==> p[0] == ';'
}

/// Attribute parameters only: every group is a single digit among 1, 2,
/// 3, 4 and 7 (bold, dim, italic, underline, reverse), so none selects a
/// colour.
pub open spec fn attr_params(p: Seq<char>) -> bool {
    &&& param_groups(p)
    &&& forall|i: int|
        0 <= i < p.len() && #[trigger] p[i] != ';' ==> (p[i] == '1' || p[i] == '2' || p[i] == '3'
            || p[i] == '4' || p[i] == '7') && i > 0 && p[i - 1] == ';'
}

/// A well-formed escape sequence: `ESC [ 0` (a reset), then parameter
/// groups, then `m`.
pub open spec fn sgr_valid(t: Seq<char>) -> bool {
    &&& t.len() >= 4
    &&& t.take(3) == "\x1b[0"@
    &&& t.last() == 'm'
    &&& param_groups(t.subrange(3, t.len() - 1))
}

proof fn lemma_groups_concat(a: Seq<char>, b: Seq<char>)
    requires
        param_groups(a),
        param_groups(b),
    ensures
        param_groups(a + b),
{
    let c = a + b;
    assert forall|i: int| 0 <= i < c.len() implies c[i] == ';' || is_dec_digit(#[trigger] c[i]) by {
        if i < a.len() {
            assert(c[i] == a[i]);
        } else {
            assert(c[i] == b[i - a.len()]);
        }
    }
    assert forall|i: int| 0 <= i < c.len() && #[trigger] c[i] == ';' implies i + 1 < c.len()
        && is_dec_digit(c[i + 1]) by {
        if i < a.len() {
            assert(c[i] == a[i]);
            assert(c[i + 1] == a[i + 1]);
        } else {
            assert(c[i] == b[i - a.len()]);
            assert(c[i + 1] == b[i + 1 - a.len()]);
        }
    }
    if c.len() > 0 {
        if a.len() == 0 {
            assert(c[0] == b[0]);
        } else {
            assert(c[0] == a[0]);
        }
    }
}

proof fn lemma_attrs_concat(a: Seq<char>, b: Seq<char>)
    requires
        attr_params(a),
        attr_params(b),
    ensures
        attr_params(a + b),
{
    lemma_groups_concat(a, b);
    let c = a + b;
    assert forall|i: int| 0 <= i < c.len() && #[trigger] c[i] != ';' implies (c[i] == '1' || c[i]
        == '2' || c[i] == '3' || c[i] == '4' || c[i] == '7') && i > 0 && c[i - 1] == ';' by {
        if i < a.len() {
            assert(c[i] == a[i]);
            assert(c[i - 1] == a[i - 1]);
        } else {
            assert(c[i] == b[i - a.len()]);
            if i > a.len() {
                assert(c[i - 1] == b[i - 1 - a.len()]);
            }
        }
    }
}

proof fn lemma_dec_digits(n: nat)
    ensures
        dec_chars(n).len() >= 1,
        forall|i: int| 0 <= i < dec_chars(n).len() ==> is_dec_digit(#[trigger] dec_chars(n)[i]),
    decreases n,
{
    if n >= 10 {
        lemma_dec_digits(n / 10);
        let d = dec_chars(n);
        assert forall|i: int| 0 <= i < d.len() implies is_dec_digit(#[trigger] d[i]) by {
            if i < d.len() - 1 {
                assert(d[i] == dec_chars(n / 10)[i]);
            }
        }
    }
}

/// A `;` and a number: one parameter group.
proof fn lemma_group(n: nat)
    ensures
        param_groups(";"@ + dec_chars(n)),
{
    reveal_strlit(";");
    lemma_dec_digits(n);
    let g = ";"@ + dec_chars(n);
    assert forall|i: int| 0 <= i < g.len() implies g[i] == ';' || is_dec_digit(#[trigger] g[i]) by {
        if i > 0 {
            assert(g[i] == dec_chars(n)[i - 1]);
        }
    }
    assert forall|i: int| 0 <= i < g.len() && #[trigger] g[i] == ';' implies i + 1 < g.len()
        && is_dec_digit(g[i + 1]) by {
        if i > 0 {
            assert(g[i] == dec_chars(n)[i - 1]);
        }
        assert(g[1] == dec_chars(n)[0]);
    }
}

proof fn lemma_attr_literal(t: Seq<char>, d: char)
    requires
        t == seq![';', d],
        d == '1' || d == '2' || d == '3' || d == '4' || d == '7',
    ensures
        attr_params(t),
{
}

proof fn lemma_attr_codes_params(s: Style, eff: ColorMode)
    ensures
        attr_params(attr_codes(s, eff)),
{
    reveal_strlit(";1");
    reveal_strlit(";2");
    reveal_strlit(";3");
    reveal_strlit(";4");
    reveal_strlit(";7");
    let e = Seq::<char>::empty();
    assert(attr_params(e));
    let p1 = if s.attrs & ATTR_BOLD != 0 { ";1"@ } else { e };
    let p2 = if s.attrs & ATTR_DIM != 0 { ";2"@ } else { e };
    let p3 = if s.attrs & ATTR_ITALIC != 0 { ";3"@ } else { e };
    let p4 = if s.attrs & ATTR_UNDER != 0 { ";4"@ } else { e };
    let p7 = if (s.attrs & ATTR_REVERSE != 0) || (eff == ColorMode::NoColor && s.attrs
        & ATTR_SWAPPED != 0) {
        ";7"@
    } else {
        e
    };
    assert(";1"@ =~= seq![';', '1']);
    lemma_attr_literal(";1"@, '1');
    assert(";2"@ =~= seq![';', '2']);
    lemma_attr_literal(";2"@, '2');
    assert(";3"@ =~= seq![';', '3']);
    lemma_attr_literal(";3"@, '3');
    assert(";4"@ =~= seq![';', '4']);
    lemma_attr_literal(";4"@, '4');
    assert(";7"@ =~= seq![';', '7']);
    lemma_attr_literal(";7"@, '7');
    lemma_attrs_concat(p1, p2);
    lemma_attrs_concat(p1 + p2, p3);
    lemma_attrs_concat(p1 + p2 + p3, p4);
    lemma_attrs_concat(p1 + p2 + p3 + p4, p7);
    assert(attr_codes(s, eff) == p1 + p2 + p3 + p4 + p7);
}

proof fn lemma_idx_code_params(idx: int, base: int, ext: int)
    ensures
        param_groups(idx_code(idx, base, ext)),
{
    reveal_strlit(";");
    reveal_strlit(";5;");
    if idx < 8 {
        lemma_group((base + idx) as nat);
    } else if idx < 16 {
        lemma_group((base + 60 + idx - 8) as nat);
    } else {
        lemma_group(ext as nat);
        lemma_group(5);
        lemma_group(idx as nat);
        assert(dec_chars(5) =~= seq!['5']);
        let g = ";"@ + dec_chars(ext as nat) + ";5;"@ + dec_chars(idx as nat);
        assert(g =~= (";"@ + dec_chars(ext as nat)) + (";"@ + dec_chars(5)) + (";"@ + dec_chars(
            idx as nat,
        )));
        lemma_groups_concat(";"@ + dec_chars(ext as nat), ";"@ + dec_chars(5));
        lemma_groups_concat(
            (";"@ + dec_chars(ext as nat)) + (";"@ + dec_chars(5)),
            ";"@ + dec_chars(idx as nat),
        );
    }
}

proof fn lemma_color_code_params(c: Color, is_bg: bool, eff: ColorMode)
    requires
        color_wf(c),
    ensures
        param_groups(color_code(c, is_bg, eff)),
{
    reveal_strlit(";");
    reveal_strlit(";2;");
    let base: int = if is_bg { 40 } else { 30 };
    let ext: int = if is_bg { 48 } else { 38 };
    match c.kind {
        ColorKind::Terminal => {},
        ColorKind::Rgb => {
            let r = c.r as int;
            let g = c.g as int;
            let b = c.b as int;
            if eff == ColorMode::TrueColor {
                lemma_group(ext as nat);
                lemma_group(2);
                lemma_group(r as nat);
                lemma_group(g as nat);
                lemma_group(b as nat);
                assert(dec_chars(2) =~= seq!['2']);
                let x1 = ";"@ + dec_chars(ext as nat);
                let x2 = ";"@ + dec_chars(2);
                let x3 = ";"@ + dec_chars(r as nat);
                let x4 = ";"@ + dec_chars(g as nat);
                let x5 = ";"@ + dec_chars(b as nat);
                assert(color_code(c, is_bg, eff) =~= x1 + x2 + x3 + x4 + x5);
                lemma_groups_concat(x1, x2);
                lemma_groups_concat(x1 + x2, x3);
                lemma_groups_concat(x1 + x2 + x3, x4);
                lemma_groups_concat(x1 + x2 + x3 + x4, x5);
            } else if eff == ColorMode::C256 {
                lemma_idx_code_params(cube256(r, g, b), base, ext);
            } else {
                lemma_idx_code_params(nearest16(r, g, b), base, ext);
            }
        },
        ColorKind::Idx => {
            let idx = if eff == ColorMode::C16 && c.idx > 15 {
                (c.idx % 16) as int
            } else {
                c.idx as int
            };
            lemma_idx_code_params(idx, base, ext);
        },
    }
}

/// Every escape sequence a style produces is well formed, and without
/// colour it holds attribute parameters only (a swap then shows as reverse
/// video).
pub proof fn lemma_sgr_text_valid(s: Style, eff: ColorMode)
    requires
        style_wf(s),
    ensures
        sgr_valid(sgr_text(s, eff)),
        eff == ColorMode::NoColor ==> sgr_text(s, eff) == "\x1b[0"@ + attr_codes(s, eff) + "m"@,
        eff == ColorMode::NoColor ==> attr_params(attr_codes(s, eff)),
        eff == ColorMode::NoColor && s.attrs & ATTR_SWAPPED != 0 ==> attr_codes(s, eff).len() >= 2
            && attr_codes(s, eff).skip(attr_codes(s, eff).len() - 2) == ";7"@,
{
    reveal_strlit("\x1b[0");
    reveal_strlit("m");
    reveal_strlit(";7");
    let t = sgr_text(s, eff);
    let cols = if eff != ColorMode::NoColor {
        color_code(s.fg, false, eff) + color_code(s.bg, true, eff)
    } else {
        Seq::empty()
    };
    let mid = attr_codes(s, eff) + cols;
    assert(t == "\x1b[0"@ + mid + "m"@);
    assert(t.take(3) =~= "\x1b[0"@);
    assert(t.subrange(3, t.len() - 1) =~= mid);
    lemma_attr_codes_params(s, eff);
    if eff != ColorMode::NoColor {
        lemma_color_code_params(s.fg, false, eff);
        lemma_color_code_params(s.bg, true, eff);
        lemma_groups_concat(color_code(s.fg, false, eff), color_code(s.bg, true, eff));
    }
    lemma_groups_concat(attr_codes(s, eff), cols);
    if eff == ColorMode::NoColor {
        assert(mid =~= attr_codes(s, eff));
        if s.attrs & ATTR_SWAPPED != 0 {
            let a = attr_codes(s, eff);
            assert(a.skip(a.len() - 2) =~= ";7"@);
        }
    }
}

fn push_idx_code(buf: &mut Vec<char>, idx: i32, base: i32, ext: i32)
    requires
        0 <= idx <= 255,
        base == 30 || base == 40,
        ext == 38 || ext == 48,
    ensures
        final(buf)@ == old(buf)@ + idx_code(idx as int, base as int, ext as int),
{
    if idx < 8 {
        push_str(buf, ";");
        push_dec(buf, (base + idx) as u64);
    } else if idx < 16 {
        push_str(buf, ";");
        push_dec(buf, (base + 60 + idx - 8) as u64);
    } else {
        push_str(buf, ";");
        push_dec(buf, ext as u64);
        push_str(buf, ";5;");
        push_dec(buf, idx as u64);
    }
    assert(buf@ =~= old(buf)@ + idx_code(idx as int, base as int, ext as int));
}

/// Append the parameters for colour `c` (see `color_code`).
pub fn push_color(buf: &mut Vec<char>, c: &Color, is_bg: bool, eff: ColorMode)
    requires
        color_wf(*c),
    ensures
        final(buf)@ == old(buf)@ + color_code(*c, is_bg, eff),
{
    let base: i32 = if is_bg { 40 } else { 30 };
    let ext: i32 = if is_bg { 48 } else { 38 };

    let idx = match c.kind {
        ColorKind::Terminal => {
            assert(buf@ =~= old(buf)@ + color_code(*c, is_bg, eff));
            return ;
        },
        ColorKind::Rgb => {
            let r = clamp255(c.r);
            let g = clamp255(c.g);
            let b = clamp255(c.b);
            if eff == ColorMode::TrueColor {
                push_str(buf, ";");
                push_dec(buf, ext as u64);
                push_str(buf, ";2;");
                push_dec(buf, r as u64);
                push_str(buf, ";");
                push_dec(buf, g as u64);
                push_str(buf, ";");
                push_dec(buf, b as u64);
                assert(buf@ =~= old(buf)@ + color_code(*c, is_bg, eff));
                return ;
            }
            if eff == ColorMode::C256 {
                quantize256(r, g, b)
            } else {
                quantize16(r, g, b)
            }
        },
        ColorKind::Idx => {
            if eff == ColorMode::C16 && c.idx > 15 {
                c.idx % 16
            } else {
                c.idx
            }
        },
    };
    push_idx_code(buf, idx, base, ext);
}

fn push_if(buf: &mut Vec<char>, cond: bool, s: &str)
    ensures
        final(buf)@ == old(buf)@ + (if cond {
            s@
        } else {
            Seq::empty()
        }),
{
    if cond {
        push_str(buf, s);
    } else {
        assert(buf@ =~= old(buf)@ + Seq::<char>::empty());
    }
}

fn push_attr_codes(buf: &mut Vec<char>, s: &Style, eff: ColorMode)
    ensures
        final(buf)@ == old(buf)@ + attr_codes(*s, eff),
{
    push_if(buf, s.attrs & ATTR_BOLD != 0, ";1");
    let ghost b1 = buf@;
    push_if(buf, s.attrs & ATTR_DIM != 0, ";2");
    let ghost b2 = buf@;
    push_if(buf, s.attrs & ATTR_ITALIC != 0, ";3");
    let ghost b3 = buf@;
    push_if(buf, s.attrs & ATTR_UNDER != 0, ";4");
    let ghost b4 = buf@;
    push_if(
        buf,
        (s.attrs & ATTR_REVERSE != 0) || (eff == ColorMode::NoColor && s.attrs & ATTR_SWAPPED
            != 0),
        ";7",
    );
    assert(buf@ =~= old(buf)@ + attr_codes(*s, eff));
}

fn push_colors(buf: &mut Vec<char>, s: &Style, eff: ColorMode)
    requires
        style_wf(*s),
    ensures
        final(buf)@ == old(buf)@ + (if eff != ColorMode::NoColor {
            color_code(s.fg, false, eff) + color_code(s.bg, true, eff)
        } else {
            Seq::empty()
        }),
{
    if eff != ColorMode::NoColor {
        push_color(buf, &s.fg, false, eff);
        push_color(buf, &s.bg, true, eff);
    }
    assert(buf@ =~= old(buf)@ + (if eff != ColorMode::NoColor {
        color_code(s.fg, false, eff) + color_code(s.bg, true, eff)
    } else {
        Seq::empty()
    }));
}

/// The escape sequence for a style (see `sgr_text`).
pub fn build_sgr_text(s: &Style, eff: ColorMode) -> (t: Vec<char>)
    requires
        style_wf(*s),
    ensures
        t@ == sgr_text(*s, eff),
{
    let mut buf: Vec<char> = Vec::new();
    push_str(&mut buf, "\x1b[0");
    push_attr_codes(&mut buf, s, eff);
    push_colors(&mut buf, s, eff);
    push_str(&mut buf, "m");
    assert(buf@ =~= sgr_text(*s, eff));
    buf
}

} // verus!
