//! What the screen shows, as text: cursor moves, escape sequences from the
//! theme and the characters between them. The caller writes the text to
//! the terminal.

use vstd::prelude::*;
use crate::calc::{spec_angle_name, spec_base_name, spec_op_symbol, angle_name, base_name, op_symbol, AngleMode, Base, Op};
use crate::keypad::{
    button, btn_active, btn_enabled, rect, row_width, spec_button, spec_btn_active,
    spec_btn_enabled, spec_rect, spec_right, draw_right, row_len, half, half_exec, flat_pos,
    flat_pos_exec, Btn, Layout, Rect, H_CONTENT, N_BUTTONS,
    NROWS, W_INNER,
};
use crate::style::{sid, stid, StyleId, StyleState};
use crate::theme::{ChromeView, Theme};
use crate::text::{
    chars_to_string, dec_chars, push_all, push_dec, push_str, str_chars, string_of, sub_chars,
};

verus! {

// ------------------------------------------------------------ pieces

/// An integer as `{}` prints it.
pub open spec fn int_chars(v: int) -> Seq<char> {
    if v < 0 {
        seq!['-'] + dec_chars((-v) as nat)
    } else {
        dec_chars(v as nat)
    }
}

/// Move the cursor to row `y`, column `x` (both counted from 1).
pub open spec fn goto(y: int, x: int) -> Seq<char> {
    "\x1b["@ + int_chars(y) + ";"@ + int_chars(x) + "H"@
}

/// `s` written `n` times (nothing for `n <= 0`).
pub open spec fn rep(s: Seq<char>, n: int) -> Seq<char>
    decreases n,
{
    if n <= 0 {
        Seq::empty()
    } else {
        rep(s, n - 1) + s
    }
}

/// The theme's escape sequence for a slot in a state.
pub open spec fn sty(tab: Seq<Seq<char>>, id: StyleId, st: StyleState) -> Seq<char> {
    tab[sid(id) * 4 + stid(st)]
}

/// Back to the terminal's own appearance.
pub open spec fn reset() -> Seq<char> {
    "\x1b[0m"@
}

fn push_int(out: &mut Vec<char>, v: i32)
    ensures
        final(out)@ == old(out)@ + int_chars(v as int),
{
    if v < 0 {
        out.push('-');
        let m: i64 = -(v as i64);
        push_dec(out, m as u64);
        assert(final(out)@ =~= old(out)@ + int_chars(v as int));
    } else {
        push_dec(out, v as u64);
    }
}

/// Append a cursor move.
pub fn push_goto(out: &mut Vec<char>, y: i32, x: i32)
    ensures
        final(out)@ == old(out)@ + goto(y as int, x as int),
{
    push_str(out, "\x1b[");
    push_int(out, y);
    push_str(out, ";");
    push_int(out, x);
    push_str(out, "H");
    assert(final(out)@ =~= old(out)@ + goto(y as int, x as int));
}

fn push_rep(out: &mut Vec<char>, s: &str, n: i32)
    ensures
        final(out)@ == old(out)@ + rep(s@, n as int),
{
    if n <= 0 {
        assert(old(out)@ + rep(s@, n as int) =~= old(out)@);
        return;
    }
    let mut i: i32 = 0;
    while i < n
        invariant
            0 <= i <= n,
            out@ == old(out)@ + rep(s@, i as int),
        decreases n - i,
    {
        push_str(out, s);
        i += 1;
        assert(out@ =~= old(out)@ + rep(s@, i as int));
    }
}

fn push_style(out: &mut Vec<char>, theme: &Theme, id: StyleId, st: StyleState)
    requires
        theme.wf(),
    ensures
        final(out)@ == old(out)@ + sty(theme.sgr_table(), id, st),
{
    push_str(out, theme.sgr(id, st));
}

fn push_reset(out: &mut Vec<char>)
    ensures
        final(out)@ == old(out)@ + reset(),
{
    push_str(out, "\x1b[0m");
}

// ------------------------------------------------------------ buttons

/// The state a button is drawn in: focused, else disabled, else showing
/// a mode that is on, else normal.
pub open spec fn btn_state(focused: bool, base: Base, inv: bool, b: Btn) -> StyleState {
    if focused {
        StyleState::Focus
    } else if !spec_btn_enabled(base, b) {
        StyleState::Disabled
    } else if spec_btn_active(base, inv, b) {
        StyleState::Active
    } else {
        StyleState::Normal
    }
}

/// A button: its label centred between the key brackets, across the
/// button's width, in its category's style.
pub open spec fn btn_text(
    tab: Seq<Seq<char>>,
    c: ChromeView,
    rc: Rect,
    b: Btn,
    st: StyleState,
) -> Seq<char> {
    let lb: int = if c.key_left.len() > 0 {
        1
    } else {
        0
    };
    let rb: int = if c.key_right.len() > 0 {
        1
    } else {
        0
    };
    let inner = rc.w - lb - rb;
    let len = if b.label@.len() > inner {
        inner
    } else {
        b.label@.len() as int
    };
    let lpad = (inner - len) / 2;
    goto(rc.y as int, rc.x as int) + sty(tab, b.cat, st) + c.key_left + rep(" "@, lpad)
        + b.label@.take(len) + rep(" "@, inner - len - lpad) + c.key_right + reset()
}

fn draw_btn_at(out: &mut Vec<char>, theme: &Theme, rc: Rect, b: &Btn, st: StyleState)
    requires
        theme.wf(),
        rc.w == 12 || rc.w == 18,
    ensures
        final(out)@ == old(out)@ + btn_text(theme.sgr_table(), theme.model().chrome, rc, *b, st),
{
    let chrome = theme.chrome();
    let kl = str_chars(chrome.key_left.as_str());
    let kr = str_chars(chrome.key_right.as_str());
    let lb: i32 = if kl.len() > 0 {
        1
    } else {
        0
    };
    let rb: i32 = if kr.len() > 0 {
        1
    } else {
        0
    };
    let inner = rc.w - lb - rb;
    let label = str_chars(b.label);
    let len: i32 = if label.len() > inner as usize {
        inner
    } else {
        label.len() as i32
    };
    let lpad = (inner - len) / 2;
    let rpad = inner - len - lpad;
    let shown = sub_chars(label.as_slice(), 0, len as usize);
    assert(shown@ =~= b.label@.take(len as int));
    let mut t: Vec<char> = Vec::new();
    push_goto(&mut t, rc.y, rc.x);
    push_style(&mut t, theme, b.cat, st);
    push_all(&mut t, kl.as_slice());
    push_rep(&mut t, " ", lpad);
    push_all(&mut t, shown.as_slice());
    push_rep(&mut t, " ", rpad);
    push_all(&mut t, kr.as_slice());
    push_reset(&mut t);
    assert(t@ =~= btn_text(theme.sgr_table(), theme.model().chrome, rc, *b, st));
    push_all(out, t.as_slice());
}

/// Draw button (r, i); `focus` is the focused button.
pub fn draw_btn(
    out: &mut Vec<char>,
    theme: &Theme,
    l: &Layout,
    base: Base,
    inv: bool,
    focus: (usize, usize),
    r: usize,
    i: usize,
)
    requires
        theme.wf(),
        1 <= l.ox <= 40000,
        1 <= l.oy <= 40000,
        r < NROWS,
        i < row_len(r as int),
    ensures
        final(out)@ == old(out)@ + btn_text(
            theme.sgr_table(),
            theme.model().chrome,
            spec_rect(*l, r as int, i as int),
            spec_button(r as int, i as int),
            btn_state(
                focus.0 == r && focus.1 == i,
                base,
                inv,
                spec_button(r as int, i as int),
            ),
        ),
{
    let b = button(r, i);
    let st = if focus.0 == r && focus.1 == i {
        StyleState::Focus
    } else if !btn_enabled(base, &b) {
        StyleState::Disabled
    } else if btn_active(base, inv, &b) {
        StyleState::Active
    } else {
        StyleState::Normal
    };
    let rc = rect(l, r, i);
    draw_btn_at(out, theme, rc, &b, st);
}

// ------------------------------------------------------------ frame

/// What the display frame shows of the calculator, as plain values.
pub struct FrameInfo {
    pub angle: AngleMode,
    pub base: Base,
    pub inv: bool,
    /// The innermost pending operator, `NoOp` when there is none.
    pub pending: Op,
    pub depth: i32,
    pub mem_set: bool,
    pub error: bool,
    /// The main display's text.
    pub display: String,
    /// The current value written in each base.
    pub dec: String,
    pub hex: String,
    pub bin: String,
}

/// The top border, with the title inlaid when it fits.
pub open spec fn frame_top(tab: Seq<Seq<char>>, c: ChromeView, ox: int, oy: int) -> Seq<char> {
    let tlen = c.title.len() as int;
    let fr = sty(tab, StyleId::Frame, StyleState::Normal);
    goto(oy, ox) + fr + c.tl + (if tlen > 0 && tlen < W_INNER - 4 {
        c.h + " "@ + sty(tab, StyleId::Title, StyleState::Normal) + c.title + fr + " "@ + rep(
            c.h,
            W_INNER - 3 - tlen,
        )
    } else {
        rep(c.h, W_INNER as int)
    }) + c.tr + reset()
}

/// Angle unit and number base.
pub open spec fn mode_text(f: FrameInfo) -> Seq<char> {
    spec_angle_name(f.angle) + "  "@ + spec_base_name(f.base)
}

pub open spec fn pending_text(op: Op) -> Seq<char> {
    "  "@ + spec_op_symbol(op)
}

pub open spec fn depth_text(d: int) -> Seq<char> {
    "  ("@ + int_chars(d)
}

/// The status line's text, without its styles.
pub open spec fn status_plain(f: FrameInfo) -> Seq<char> {
    mode_text(f) + (if f.inv {
        "  INV"@
    } else {
        Seq::empty()
    }) + (if f.pending != Op::NoOp {
        pending_text(f.pending)
    } else {
        Seq::empty()
    }) + (if f.depth > 0 {
        depth_text(f.depth as int)
    } else {
        Seq::empty()
    })
}

/// The status line's left part: angle unit, base, a latched INV, the
/// pending operator and the open-parenthesis depth, each in its style.
pub open spec fn status_left(tab: Seq<Seq<char>>, f: FrameInfo) -> Seq<char> {
    sty(tab, StyleId::StatusMode, StyleState::Normal) + mode_text(f) + (if f.inv {
        sty(tab, StyleId::StatusInv, StyleState::Normal) + "  INV"@
    } else {
        Seq::empty()
    }) + (if f.pending != Op::NoOp {
        sty(tab, StyleId::Status, StyleState::Normal) + pending_text(f.pending)
    } else {
        Seq::empty()
    }) + (if f.depth > 0 {
        sty(tab, StyleId::Status, StyleState::Normal) + depth_text(f.depth as int)
    } else {
        Seq::empty()
    })
}

/// The status line's right part: padding up to the `M` indicator, then
/// the right border.
pub open spec fn status_right(tab: Seq<Seq<char>>, c: ChromeView, f: FrameInfo) -> Seq<char> {
    let used = status_plain(f).len() as int;
    let used1 = if used > W_INNER - 3 {
        W_INNER - 3
    } else {
        used
    };
    reset() + rep(" "@, W_INNER - 3 - used1) + sty(tab, StyleId::StatusMem, StyleState::Normal) + (
    if f.mem_set {
        "M"@
    } else {
        " "@
    }) + reset() + " "@ + sty(tab, StyleId::Frame, StyleState::Normal) + c.v + reset()
}

/// The status line: angle unit, base, a latched INV, the pending
/// operator, the open-parenthesis depth, and `M` when memory holds a value.
pub open spec fn frame_status(
    tab: Seq<Seq<char>>,
    c: ChromeView,
    f: FrameInfo,
    ox: int,
    oy: int,
) -> Seq<char> {
    goto(oy + 1, ox) + sty(tab, StyleId::Frame, StyleState::Normal) + c.v + reset() + " "@
        + status_left(tab, f) + status_right(tab, c, f)
}

/// The main display line, right-aligned.
pub open spec fn frame_display(
    tab: Seq<Seq<char>>,
    c: ChromeView,
    f: FrameInfo,
    ox: int,
    oy: int,
) -> Seq<char> {
    let fr = sty(tab, StyleId::Frame, StyleState::Normal);
    goto(oy + 2, ox) + fr + c.v + sty(
        tab,
        if f.error {
            StyleId::DisplayError
        } else {
            StyleId::Display
        },
        StyleState::Normal,
    ) + " "@ + spec_right(f.display@, W_INNER - 2) + " "@ + fr + c.v + reset()
}

/// The value in the two bases the calculator is not in; nothing while an
/// error is shown.
pub open spec fn aux_text(f: FrameInfo) -> Seq<char> {
    if f.error {
        Seq::empty()
    } else if f.base == Base::Dec {
        "hex "@ + f.hex@ + "   bin "@ + f.bin@
    } else if f.base == Base::Hex {
        "dec "@ + f.dec@ + "   bin "@ + f.bin@
    } else {
        "dec "@ + f.dec@ + "   hex "@ + f.hex@
    }
}

/// The line under the display, cut or padded to the inner width.
pub open spec fn frame_aux(tab: Seq<Seq<char>>, c: ChromeView, f: FrameInfo, ox: int, oy: int) -> Seq<
    char,
> {
    let a = aux_text(f);
    let shown = if a.len() > W_INNER - 2 {
        a.take(W_INNER - 2)
    } else {
        a
    };
    let fr = sty(tab, StyleId::Frame, StyleState::Normal);
    goto(oy + 3, ox) + fr + c.v + sty(tab, StyleId::Aux, StyleState::Normal) + " "@ + shown + rep(
        " "@,
        W_INNER - 2 - shown.len(),
    ) + " "@ + fr + c.v + reset()
}

pub open spec fn frame_bottom(tab: Seq<Seq<char>>, c: ChromeView, ox: int, oy: int) -> Seq<char> {
    goto(oy + 4, ox) + sty(tab, StyleId::Frame, StyleState::Normal) + c.bl + rep(c.h, W_INNER as int)
        + c.br + reset()
}

/// The whole display frame: five lines, each `W_INNER` columns between
/// the two verticals.
pub open spec fn frame_text(tab: Seq<Seq<char>>, c: ChromeView, f: FrameInfo, ox: int, oy: int) -> Seq<
    char,
> {
    frame_top(tab, c, ox, oy) + frame_status(tab, c, f, ox, oy) + frame_display(tab, c, f, ox, oy)
        + frame_aux(tab, c, f, ox, oy) + frame_bottom(tab, c, ox, oy)
}

proof fn lemma_rep_len(s: Seq<char>, n: int)
    requires
        n >= 0,
    ensures
        rep(s, n).len() == n * s.len(),
    decreases n,
{
    if n > 0 {
        lemma_rep_len(s, n - 1);
        assert((n - 1) * s.len() + s.len() == n * s.len()) by (nonlinear_arith);
    } else {
        assert(n * s.len() == 0) by (nonlinear_arith)
            requires
                n == 0,
        ;
    }
}

/// Every frame line fills the `W_INNER` columns between its verticals: the
/// display line and the line under it always; the borders, title included,
/// when the horizontal glyph is one character; the status line whenever
/// its text fits.
pub proof fn lemma_frame_width(c: ChromeView, f: FrameInfo)
    ensures
        (" "@ + spec_right(f.display@, W_INNER - 2) + " "@).len() == W_INNER,
        ({
            let a = aux_text(f);
            let shown = if a.len() > W_INNER - 2 {
                a.take(W_INNER - 2)
            } else {
                a
            };
            (" "@ + shown + rep(" "@, W_INNER - 2 - shown.len()) + " "@).len() == W_INNER
        }),
        c.h.len() == 1 ==> rep(c.h, W_INNER as int).len() == W_INNER,
        (c.h.len() == 1 && c.title.len() > 0 && c.title.len() < W_INNER - 4) ==> (c.h + " "@
            + c.title + " "@ + rep(c.h, W_INNER - 3 - c.title.len())).len() == W_INNER,
        status_plain(f).len() <= W_INNER - 3 ==> (" "@ + status_plain(f) + rep(
            " "@,
            W_INNER - 3 - status_plain(f).len(),
        ) + " "@ + " "@).len() == W_INNER,
{
    reveal_strlit(" ");
    crate::keypad::lemma_right_width(f.display@, W_INNER - 2);
    let a = aux_text(f);
    let shown = if a.len() > W_INNER - 2 {
        a.take(W_INNER - 2)
    } else {
        a
    };
    lemma_rep_len(" "@, W_INNER - 2 - shown.len());
    lemma_rep_len(c.h, W_INNER as int);
    if c.title.len() < W_INNER - 4 {
        lemma_rep_len(c.h, W_INNER - 3 - c.title.len());
    }
    if status_plain(f).len() <= W_INNER - 3 {
        lemma_rep_len(" "@, W_INNER - 3 - status_plain(f).len());
    }
}

fn draw_frame_top(out: &mut Vec<char>, theme: &Theme, ox: i32, oy: i32)
    requires
        theme.wf(),
    ensures
        final(out)@ == old(out)@ + frame_top(theme.sgr_table(), theme.model().chrome, ox as int, oy as int),
{
    let c = theme.chrome();
    let title = str_chars(c.title.as_str());
    let tlen = title.len();
    let mut t: Vec<char> = Vec::new();
    push_goto(&mut t, oy, ox);
    push_style(&mut t, theme, StyleId::Frame, StyleState::Normal);
    push_str(&mut t, c.tl.as_str());
    if tlen > 0 && tlen < (W_INNER - 4) as usize {
        push_str(&mut t, c.h.as_str());
        push_str(&mut t, " ");
        push_style(&mut t, theme, StyleId::Title, StyleState::Normal);
        push_all(&mut t, title.as_slice());
        push_style(&mut t, theme, StyleId::Frame, StyleState::Normal);
        push_str(&mut t, " ");
        push_rep(&mut t, c.h.as_str(), W_INNER - 3 - tlen as i32);
    } else {
        push_rep(&mut t, c.h.as_str(), W_INNER);
    }
    push_str(&mut t, c.tr.as_str());
    push_reset(&mut t);
    assert(t@ =~= frame_top(theme.sgr_table(), theme.model().chrome, ox as int, oy as int));
    push_all(out, t.as_slice());
}

fn push_status_left(t: &mut Vec<char>, plain: &mut Vec<char>, theme: &Theme, f: &FrameInfo)
    requires
        theme.wf(),
        old(t)@.len() == 0,
        old(plain)@.len() == 0,
    ensures
        final(t)@ == status_left(theme.sgr_table(), *f),
        final(plain)@ == status_plain(*f),
{
    let tab = Ghost(theme.sgr_table());
    push_style(t, theme, StyleId::StatusMode, StyleState::Normal);
    push_str(plain, angle_name(f.angle));
    push_str(plain, "  ");
    push_str(plain, base_name(f.base));
    push_all(t, plain.as_slice());
    let ghost a = t@;
    let ghost pa = plain@;
    assert(pa =~= mode_text(*f));
    assert(a =~= sty(tab@, StyleId::StatusMode, StyleState::Normal) + mode_text(*f));
    if f.inv {
        push_style(t, theme, StyleId::StatusInv, StyleState::Normal);
        push_str(t, "  INV");
        push_str(plain, "  INV");
    }
    let ghost b = t@;
    let ghost pb = plain@;
    assert(b =~= a + (if f.inv {
        sty(tab@, StyleId::StatusInv, StyleState::Normal) + "  INV"@
    } else {
        Seq::empty()
    }));
    assert(pb =~= pa + (if f.inv {
        "  INV"@
    } else {
        Seq::empty()
    }));
    if f.pending != Op::NoOp {
        let mut p: Vec<char> = Vec::new();
        push_str(&mut p, "  ");
        push_str(&mut p, op_symbol(f.pending));
        push_style(t, theme, StyleId::Status, StyleState::Normal);
        push_all(t, p.as_slice());
        push_all(plain, p.as_slice());
    }
    let ghost c = t@;
    let ghost pc = plain@;
    assert(c =~= b + (if f.pending != Op::NoOp {
        sty(tab@, StyleId::Status, StyleState::Normal) + pending_text(f.pending)
    } else {
        Seq::empty()
    }));
    assert(pc =~= pb + (if f.pending != Op::NoOp {
        pending_text(f.pending)
    } else {
        Seq::empty()
    }));
    if f.depth > 0 {
        let mut d: Vec<char> = Vec::new();
        push_str(&mut d, "  (");
        push_int(&mut d, f.depth);
        push_style(t, theme, StyleId::Status, StyleState::Normal);
        push_all(t, d.as_slice());
        push_all(plain, d.as_slice());
    }
    assert(t@ =~= c + (if f.depth > 0 {
        sty(tab@, StyleId::Status, StyleState::Normal) + depth_text(f.depth as int)
    } else {
        Seq::empty()
    }));
    assert(plain@ =~= pc + (if f.depth > 0 {
        depth_text(f.depth as int)
    } else {
        Seq::empty()
    }));
}

fn push_status_right(t: &mut Vec<char>, theme: &Theme, f: &FrameInfo, used: usize)
    requires
        theme.wf(),
        old(t)@.len() == 0,
        used == status_plain(*f).len(),
    ensures
        final(t)@ == status_right(theme.sgr_table(), theme.model().chrome, *f),
{
    let c = theme.chrome();
    let used1: i32 = if used > (W_INNER - 3) as usize {
        W_INNER - 3
    } else {
        used as i32
    };
    push_reset(t);
    push_rep(t, " ", W_INNER - 3 - used1);
    push_style(t, theme, StyleId::StatusMem, StyleState::Normal);
    push_str(
        t,
        if f.mem_set {
            "M"
        } else {
            " "
        },
    );
    push_reset(t);
    push_str(t, " ");
    push_style(t, theme, StyleId::Frame, StyleState::Normal);
    push_str(t, c.v.as_str());
    push_reset(t);
    assert(t@ =~= status_right(theme.sgr_table(), theme.model().chrome, *f));
}

fn draw_frame_status(out: &mut Vec<char>, theme: &Theme, f: &FrameInfo, ox: i32, oy: i32)
    requires
        theme.wf(),
        oy <= 40000,
    ensures
        final(out)@ == old(out)@ + frame_status(
            theme.sgr_table(),
            theme.model().chrome,
            *f,
            ox as int,
            oy as int,
        ),
{
    let c = theme.chrome();
    let mut left: Vec<char> = Vec::new();
    let mut plain: Vec<char> = Vec::new();
    push_status_left(&mut left, &mut plain, theme, f);
    let mut right: Vec<char> = Vec::new();
    push_status_right(&mut right, theme, f, plain.len());
    let mut t: Vec<char> = Vec::new();
    push_goto(&mut t, oy + 1, ox);
    push_style(&mut t, theme, StyleId::Frame, StyleState::Normal);
    push_str(&mut t, c.v.as_str());
    push_reset(&mut t);
    push_str(&mut t, " ");
    push_all(&mut t, left.as_slice());
    push_all(&mut t, right.as_slice());
    assert(t@ =~= frame_status(theme.sgr_table(), theme.model().chrome, *f, ox as int, oy as int));
    push_all(out, t.as_slice());
}

fn draw_frame_display(out: &mut Vec<char>, theme: &Theme, f: &FrameInfo, ox: i32, oy: i32)
    requires
        theme.wf(),
        oy <= 40000,
    ensures
        final(out)@ == old(out)@ + frame_display(
            theme.sgr_table(),
            theme.model().chrome,
            *f,
            ox as int,
            oy as int,
        ),
{
    let c = theme.chrome();
    let shown = draw_right(f.display.as_str(), W_INNER - 2);
    let mut t: Vec<char> = Vec::new();
    push_goto(&mut t, oy + 2, ox);
    push_style(&mut t, theme, StyleId::Frame, StyleState::Normal);
    push_str(&mut t, c.v.as_str());
    push_style(
        &mut t,
        theme,
        if f.error {
            StyleId::DisplayError
        } else {
            StyleId::Display
        },
        StyleState::Normal,
    );
    push_str(&mut t, " ");
    push_str(&mut t, shown.as_str());
    push_str(&mut t, " ");
    push_style(&mut t, theme, StyleId::Frame, StyleState::Normal);
    push_str(&mut t, c.v.as_str());
    push_reset(&mut t);
    assert(t@ =~= frame_display(theme.sgr_table(), theme.model().chrome, *f, ox as int, oy as int));
    push_all(out, t.as_slice());
}

fn aux_text_exec(f: &FrameInfo) -> (a: Vec<char>)
    ensures
        a@ == aux_text(*f),
{
    let mut a: Vec<char> = Vec::new();
    if f.error {
        return a;
    }
    if f.base == Base::Dec {
        push_str(&mut a, "hex ");
        push_str(&mut a, f.hex.as_str());
        push_str(&mut a, "   bin ");
        push_str(&mut a, f.bin.as_str());
    } else if f.base == Base::Hex {
        push_str(&mut a, "dec ");
        push_str(&mut a, f.dec.as_str());
        push_str(&mut a, "   bin ");
        push_str(&mut a, f.bin.as_str());
    } else {
        push_str(&mut a, "dec ");
        push_str(&mut a, f.dec.as_str());
        push_str(&mut a, "   hex ");
        push_str(&mut a, f.hex.as_str());
    }
    assert(a@ =~= aux_text(*f));
    a
}

fn draw_frame_aux(out: &mut Vec<char>, theme: &Theme, f: &FrameInfo, ox: i32, oy: i32)
    requires
        theme.wf(),
        oy <= 40000,
    ensures
        final(out)@ == old(out)@ + frame_aux(
            theme.sgr_table(),
            theme.model().chrome,
            *f,
            ox as int,
            oy as int,
        ),
{
    let c = theme.chrome();
    let a = aux_text_exec(f);
    let shown = if a.len() > (W_INNER - 2) as usize {
        sub_chars(a.as_slice(), 0, (W_INNER - 2) as usize)
    } else {
        sub_chars(a.as_slice(), 0, a.len())
    };
    assert(a@.take(a@.len() as int) =~= a@);
    let mut t: Vec<char> = Vec::new();
    push_goto(&mut t, oy + 3, ox);
    push_style(&mut t, theme, StyleId::Frame, StyleState::Normal);
    push_str(&mut t, c.v.as_str());
    push_style(&mut t, theme, StyleId::Aux, StyleState::Normal);
    push_str(&mut t, " ");
    push_all(&mut t, shown.as_slice());
    push_rep(&mut t, " ", W_INNER - 2 - shown.len() as i32);
    push_str(&mut t, " ");
    push_style(&mut t, theme, StyleId::Frame, StyleState::Normal);
    push_str(&mut t, c.v.as_str());
    push_reset(&mut t);
    assert(t@ =~= frame_aux(theme.sgr_table(), theme.model().chrome, *f, ox as int, oy as int));
    push_all(out, t.as_slice());
}

fn draw_frame_bottom(out: &mut Vec<char>, theme: &Theme, ox: i32, oy: i32)
    requires
        theme.wf(),
        oy <= 40000,
    ensures
        final(out)@ == old(out)@ + frame_bottom(
            theme.sgr_table(),
            theme.model().chrome,
            ox as int,
            oy as int,
        ),
{
    let c = theme.chrome();
    let mut t: Vec<char> = Vec::new();
    push_goto(&mut t, oy + 4, ox);
    push_style(&mut t, theme, StyleId::Frame, StyleState::Normal);
    push_str(&mut t, c.bl.as_str());
    push_rep(&mut t, c.h.as_str(), W_INNER);
    push_str(&mut t, c.br.as_str());
    push_reset(&mut t);
    assert(t@ =~= frame_bottom(theme.sgr_table(), theme.model().chrome, ox as int, oy as int));
    push_all(out, t.as_slice());
}

/// Draw the display frame.
pub fn draw_frame(out: &mut Vec<char>, theme: &Theme, l: &Layout, f: &FrameInfo)
    requires
        theme.wf(),
        1 <= l.ox <= 40000,
        1 <= l.oy <= 40000,
    ensures
        final(out)@ == old(out)@ + frame_text(
            theme.sgr_table(),
            theme.model().chrome,
            *f,
            l.ox as int,
            l.oy as int,
        ),
{
    let ghost o0 = out@;
    draw_frame_top(out, theme, l.ox, l.oy);
    draw_frame_status(out, theme, f, l.ox, l.oy);
    draw_frame_display(out, theme, f, l.ox, l.oy);
    draw_frame_aux(out, theme, f, l.ox, l.oy);
    draw_frame_bottom(out, theme, l.ox, l.oy);
    assert(out@ =~= o0 + frame_text(
        theme.sgr_table(),
        theme.model().chrome,
        *f,
        l.ox as int,
        l.oy as int,
    ));
}

// ------------------------------------------------------------ hint

/// The key hint under the keypad.
pub const HINT: &'static str = "arrows move  enter press  tab base  esc C  bksp DEL  ? help  q quit";

/// The hint line, centred under the keypad.
pub open spec fn hint_text(tab: Seq<Seq<char>>, ox: int, oy: int) -> Seq<char> {
    let pad = (W_INNER - HINT@.len()) / 2;
    goto(oy + H_CONTENT - 1, ox + 1 + if pad > 0 {
        pad
    } else {
        0
    }) + sty(tab, StyleId::Hint, StyleState::Normal) + HINT@ + reset()
}

pub fn draw_hint(out: &mut Vec<char>, theme: &Theme, l: &Layout)
    requires
        theme.wf(),
        1 <= l.ox <= 40000,
        1 <= l.oy <= 40000,
    ensures
        final(out)@ == old(out)@ + hint_text(theme.sgr_table(), l.ox as int, l.oy as int),
{
    proof {
        reveal_strlit("arrows move  enter press  tab base  esc C  bksp DEL  ? help  q quit");
    }
    let len = str_chars(HINT).len() as i32;
    let pad = (W_INNER - len) / 2;
    let x = l.ox + 1 + if pad > 0 {
        pad
    } else {
        0
    };
    push_goto(out, l.oy + H_CONTENT - 1, x);
    push_style(out, theme, StyleId::Hint, StyleState::Normal);
    push_str(out, HINT);
    push_reset(out);
    assert(final(out)@ =~= old(out)@ + hint_text(theme.sgr_table(), l.ox as int, l.oy as int));
}

// ------------------------------------------------------------ overlays

/// One line of a full-screen overlay: the first is the title.
pub open spec fn overlay_line(tab: Seq<Seq<char>>, y: int, x: int, text: Seq<char>, i: int) -> Seq<
    char,
> {
    goto(y, x) + sty(
        tab,
        if i == 0 {
            StyleId::HelpTitle
        } else {
            StyleId::HelpText
        },
        StyleState::Normal,
    ) + text + reset()
}

/// The row an overlay of `n` lines starts on, centred.
pub open spec fn overlay_top(lines: int, n: int) -> int {
    let t = half(lines - n - 2) + 1;
    if t < 1 {
        1
    } else {
        t
    }
}

/// The column an overlay starts in, centred on a 70-column block.
pub open spec fn overlay_left(cols: int) -> int {
    let t = half(cols - 70) + 1;
    if t < 1 {
        1
    } else {
        t
    }
}

/// The first `k` lines of an overlay; lines below the screen are left out.
pub open spec fn overlay_body(
    tab: Seq<Seq<char>>,
    texts: Seq<Seq<char>>,
    top: int,
    left: int,
    lines: int,
    k: int,
) -> Seq<char>
    decreases k,
{
    if k <= 0 {
        Seq::empty()
    } else {
        overlay_body(tab, texts, top, left, lines, k - 1) + if top + k - 1 <= lines {
            overlay_line(tab, top + k - 1, left, texts[k - 1], k - 1)
        } else {
            Seq::empty()
        }
    }
}

/// A full-screen overlay of `texts`, centred.
pub open spec fn overlay_text(tab: Seq<Seq<char>>, texts: Seq<Seq<char>>, cols: int, lines: int) -> Seq<
    char,
> {
    overlay_body(
        tab,
        texts,
        overlay_top(lines, texts.len() as int),
        overlay_left(cols),
        lines,
        texts.len() as int,
    )
}

pub open spec fn views(v: Seq<String>) -> Seq<Seq<char>> {
    v.map_values(|s: String| s@)
}

/// Draw `texts` as a centred overlay; returns its top row, left column
/// and number of lines, for what goes below it.
pub fn draw_overlay(out: &mut Vec<char>, theme: &Theme, l: &Layout, texts: &Vec<String>) -> (r: (
    i32,
    i32,
    i32,
))
    requires
        theme.wf(),
        0 <= l.cols <= 65535,
        0 <= l.lines <= 65535,
    ensures
        final(out)@ == old(out)@ + overlay_text(
            theme.sgr_table(),
            views(texts@),
            l.cols as int,
            l.lines as int,
        ),
        r == (
            overlay_top(l.lines as int, texts@.len() as int) as i32,
            overlay_left(l.cols as int) as i32,
            texts@.len() as i32,
        ),
        1 <= r.0 <= 40000,
        1 <= r.1 <= 40000,
{
    let ghost tab = theme.sgr_table();
    let ghost tv = views(texts@);
    let n = texts.len() as i32;
    // Past the screen's height, a longer list starts at the top all the same.
    let nc: i32 = if texts.len() > 70000 {
        70000
    } else {
        texts.len() as i32
    };
    assert(overlay_top(l.lines as int, texts@.len() as int) == overlay_top(
        l.lines as int,
        nc as int,
    ));
    let t0 = half_exec(l.lines - nc - 2) + 1;
    let top = if t0 < 1 {
        1
    } else {
        t0
    };
    let l0 = half_exec(l.cols - 70) + 1;
    let left = if l0 < 1 {
        1
    } else {
        l0
    };
    let ghost o0 = out@;
    assert(tv.len() == texts@.len());
    let mut i: usize = 0;
    while i < texts.len() && top + i as i32 <= l.lines
        invariant
            theme.wf(),
            tab == theme.sgr_table(),
            tv.len() == texts@.len(),
            tv == views(texts@),
            n == texts@.len() as i32,
            0 <= l.lines <= 65535,
            1 <= top <= 40000,
            1 <= left <= 40000,
            i <= texts@.len(),
            i <= 65535,
            out@ == o0 + overlay_body(tab, tv, top as int, left as int, l.lines as int, i as int),
        decreases texts@.len() - i,
    {
        let mut t: Vec<char> = Vec::new();
        push_goto(&mut t, top + i as i32, left);
        push_style(
            &mut t,
            theme,
            if i == 0 {
                StyleId::HelpTitle
            } else {
                StyleId::HelpText
            },
            StyleState::Normal,
        );
        push_str(&mut t, texts[i].as_str());
        push_reset(&mut t);
        assert(t@ =~= overlay_line(tab, top + i, left as int, tv[i as int], i as int));
        push_all(out, t.as_slice());
        i += 1;
        assert(out@ =~= o0 + overlay_body(tab, tv, top as int, left as int, l.lines as int, i as int));
    }
    proof {
        lemma_overlay_rest(tab, tv, top as int, left as int, l.lines as int, i as int);
    }
    (top, left, n)
}

/// Once a line is below the screen, so are all after it.
proof fn lemma_overlay_rest(
    tab: Seq<Seq<char>>,
    texts: Seq<Seq<char>>,
    top: int,
    left: int,
    lines: int,
    i: int,
)
    requires
        0 <= i <= texts.len(),
        i < texts.len() ==> top + i > lines,
    ensures
        overlay_body(tab, texts, top, left, lines, texts.len() as int) == overlay_body(
            tab,
            texts,
            top,
            left,
            lines,
            i,
        ),
    decreases texts.len() - i,
{
    if i < texts.len() {
        lemma_overlay_rest_from(tab, texts, top, left, lines, i, texts.len() as int);
    }
}

proof fn lemma_overlay_rest_from(
    tab: Seq<Seq<char>>,
    texts: Seq<Seq<char>>,
    top: int,
    left: int,
    lines: int,
    i: int,
    k: int,
)
    requires
        0 <= i <= k,
        top + i > lines,
    ensures
        overlay_body(tab, texts, top, left, lines, k) == overlay_body(tab, texts, top, left, lines, i),
    decreases k - i,
{
    if k > i {
        lemma_overlay_rest_from(tab, texts, top, left, lines, i, k - 1);
        assert(overlay_body(tab, texts, top, left, lines, k) =~= overlay_body(
            tab,
            texts,
            top,
            left,
            lines,
            k - 1,
        ));
    }
}

// ------------------------------------------------------------ help, about, history

/// The key bindings overlay.
pub open spec fn help_lines() -> Seq<Seq<char>> {
    seq![
        "gbcalc key bindings"@,
        ""@,
        "  0-9 . +/-      digits, decimal point, sign (+/- is '_')"@,
        "  a-f            hexadecimal digits (HEX mode only)"@,
        "  + - * /        arithmetic      ^  power (INV: y-th root)"@,
        "  ( )  =         grouping and evaluate (Enter on '=' works too)"@,
        "  e  E           EE exponent entry, constant e     p  pi"@,
        ""@,
        "  s c t          sin cos tan     i  INV latch (2nd function)"@,
        "  l g            ln log          r  sqrt (INV: x^2)"@,
        "  v  !  %        1/x  x!  percent"@,
        "  d              cycle DEG / RAD / GRAD  (INV: convert value)"@,
        ""@,
        "  Tab            cycle DEC / HEX / BIN   D H B  pick directly"@,
        "  & | # ~        AND OR XOR NOT          <  >   shift left/right"@,
        "  \\              MOD"@,
        ""@,
        "  m n M X K A    STO RCL M+ MX MC ANS"@,
        "  I              about gbcalc"@,
        "  h              history            S  (inside) save to file"@,
        "  Esc            C (clear entry)   Delete  AC (all clear)"@,
        "  Backspace      DEL               Ctrl-L  redraw"@,
        "  arrows + Enter operate every button; mouse clicks work too"@,
        ""@,
        "  ?  close help          q / Ctrl-C  quit"@,
    ]
}

fn help_texts() -> (v: Vec<String>)
    ensures
        views(v@) == help_lines(),
{
    let mut v: Vec<String> = Vec::new();
    v.push(string_of("gbcalc key bindings"));
    v.push(string_of(""));
    v.push(string_of("  0-9 . +/-      digits, decimal point, sign (+/- is '_')"));
    v.push(string_of("  a-f            hexadecimal digits (HEX mode only)"));
    v.push(string_of("  + - * /        arithmetic      ^  power (INV: y-th root)"));
    v.push(string_of("  ( )  =         grouping and evaluate (Enter on '=' works too)"));
    v.push(string_of("  e  E           EE exponent entry, constant e     p  pi"));
    v.push(string_of(""));
    v.push(string_of("  s c t          sin cos tan     i  INV latch (2nd function)"));
    v.push(string_of("  l g            ln log          r  sqrt (INV: x^2)"));
    v.push(string_of("  v  !  %        1/x  x!  percent"));
    v.push(string_of("  d              cycle DEG / RAD / GRAD  (INV: convert value)"));
    v.push(string_of(""));
    v.push(string_of("  Tab            cycle DEC / HEX / BIN   D H B  pick directly"));
    v.push(string_of("  & | # ~        AND OR XOR NOT          <  >   shift left/right"));
    v.push(string_of("  \\              MOD"));
    v.push(string_of(""));
    v.push(string_of("  m n M X K A    STO RCL M+ MX MC ANS"));
    v.push(string_of("  I              about gbcalc"));
    v.push(string_of("  h              history            S  (inside) save to file"));
    v.push(string_of("  Esc            C (clear entry)   Delete  AC (all clear)"));
    v.push(string_of("  Backspace      DEL               Ctrl-L  redraw"));
    v.push(string_of("  arrows + Enter operate every button; mouse clicks work too"));
    v.push(string_of(""));
    v.push(string_of("  ?  close help          q / Ctrl-C  quit"));
    assert(views(v@) =~= help_lines());
    v
}

/// The version shown by the about overlay.
pub const GBCALC_VERSION: &'static str = "1.0.0";

/// The about overlay.
pub open spec fn about_lines() -> Seq<Seq<char>> {
    seq![
        "gbcalc -- about"@,
        ""@,
        "  A TUI scientific calculator: display on top, functions in"@,
        "  the middle, number entry at the bottom -- the function set"@,
        "  of xcalc, plus decimal / hexadecimal / binary modes."@,
        ""@,
        "  One memory register and a saveable calculation history."@,
        ""@,
        "  version "@ + GBCALC_VERSION@,
        "  by Guy Bruneau"@,
        ""@,
        "  any key  close about          q / Ctrl-C  quit"@,
    ]
}

fn about_texts() -> (v: Vec<String>)
    ensures
        views(v@) == about_lines(),
{
    let mut v: Vec<String> = Vec::new();
    v.push(string_of("gbcalc -- about"));
    v.push(string_of(""));
    v.push(string_of("  A TUI scientific calculator: display on top, functions in"));
    v.push(string_of("  the middle, number entry at the bottom -- the function set"));
    v.push(string_of("  of xcalc, plus decimal / hexadecimal / binary modes."));
    v.push(string_of(""));
    v.push(string_of("  One memory register and a saveable calculation history."));
    v.push(string_of(""));
    let mut ver: Vec<char> = Vec::new();
    push_str(&mut ver, "  version ");
    push_str(&mut ver, GBCALC_VERSION);
    v.push(chars_to_string(ver.as_slice()));
    v.push(string_of("  by Guy Bruneau"));
    v.push(string_of(""));
    v.push(string_of("  any key  close about          q / Ctrl-C  quit"));
    assert(views(v@) =~= about_lines());
    v
}

/// Every line of `h`, indented by two spaces.
pub open spec fn indent_all(h: Seq<Seq<char>>) -> Seq<Seq<char>> {
    Seq::new(h.len(), |i: int| "  "@ + h[i])
}

/// The overlay's title and lines, then the history: the most recent
/// entries that fit (the budget leaves room for title, blanks, hint and
/// status), oldest of those first.
pub open spec fn history_lines(h: Seq<Seq<char>>, lines: int) -> Seq<Seq<char>> {
    let budget = if lines - 6 > 1 {
        lines - 6
    } else {
        1
    };
    let start = if h.len() > budget {
        h.len() - budget
    } else {
        0
    };
    let body = if h.len() == 0 {
        seq!["  (empty -- results appear here after '=')"@]
    } else {
        indent_all(h.skip(start))
    };
    seq!["gbcalc history"@, ""@] + body + seq![
        ""@,
        "  S  save to file          any other key  close history"@,
    ]
}

fn history_texts(h: &Vec<String>, lines: i32) -> (v: Vec<String>)
    requires
        0 <= lines <= 65535,
    ensures
        views(v@) == history_lines(views(h@), lines as int),
        v@.len() <= h@.len() + 5,
        v@.len() <= 65535,
{
    let ghost hv = views(h@);
    let budget: usize = if lines - 6 > 1 {
        (lines - 6) as usize
    } else {
        1
    };
    let start: usize = if h.len() > budget {
        h.len() - budget
    } else {
        0
    };
    let mut v: Vec<String> = Vec::new();
    v.push(string_of("gbcalc history"));
    v.push(string_of(""));
    let ghost head = views(v@);
    if h.len() == 0 {
        v.push(string_of("  (empty -- results appear here after '=')"));
    } else {
        let mut i: usize = start;
        while i < h.len()
            invariant
                start <= i <= h@.len(),
                h@.len() - start <= budget <= 65535,
                hv == views(h@),
                hv.len() == h@.len(),
                v@.len() == 2 + i - start,
                views(v@) == head + indent_all(hv.subrange(start as int, i as int)),
            decreases h@.len() - i,
        {
            let mut t: Vec<char> = Vec::new();
            push_str(&mut t, "  ");
            push_str(&mut t, h[i].as_str());
            let ghost before = views(v@);
            let ts = chars_to_string(t.as_slice());
            v.push(ts);
            assert(views(v@) =~= before.push(ts@));
            assert(ts@ == "  "@ + hv[i as int]);
            i += 1;
            assert(indent_all(hv.subrange(start as int, i as int)) =~= indent_all(
                hv.subrange(start as int, i - 1),
            ).push("  "@ + hv[i - 1]));
            assert(views(v@) =~= head + indent_all(hv.subrange(start as int, i as int)));
        }
        assert(hv.subrange(start as int, h@.len() as int) =~= hv.skip(start as int));
    }
    let ghost mid = views(v@);
    let a = string_of("");
    let b = string_of("  S  save to file          any other key  close history");
    v.push(a);
    assert(views(v@) =~= mid.push(a@));
    let ghost mid2 = views(v@);
    v.push(b);
    assert(views(v@) =~= mid2.push(b@));
    assert(views(v@) =~= history_lines(hv, lines as int));
    v
}

/// The help overlay, and the theme's name under it.
pub open spec fn help_text(tab: Seq<Seq<char>>, name: Seq<char>, cols: int, lines: int) -> Seq<char> {
    let n = help_lines().len() as int;
    overlay_text(tab, help_lines(), cols, lines) + goto(
        overlay_top(lines, n) + n + 1,
        overlay_left(cols),
    ) + sty(tab, StyleId::Hint, StyleState::Normal) + "  theme: "@ + name + reset()
}

/// The history overlay, and a status message under it when there is one.
pub open spec fn history_text(
    tab: Seq<Seq<char>>,
    h: Seq<Seq<char>>,
    msg: Option<Seq<char>>,
    cols: int,
    lines: int,
) -> Seq<char> {
    let texts = history_lines(h, lines);
    let n = texts.len() as int;
    overlay_text(tab, texts, cols, lines) + match msg {
        Some(m) => goto(overlay_top(lines, n) + n + 1, overlay_left(cols)) + sty(
            tab,
            StyleId::Hint,
            StyleState::Normal,
        ) + "  "@ + m + reset(),
        None => Seq::empty(),
    }
}

pub fn draw_help(out: &mut Vec<char>, theme: &Theme, l: &Layout)
    requires
        theme.wf(),
        0 <= l.cols <= 65535,
        0 <= l.lines <= 65535,
    ensures
        final(out)@ == old(out)@ + help_text(
            theme.sgr_table(),
            theme.model().name,
            l.cols as int,
            l.lines as int,
        ),
{
    let texts = help_texts();
    let ghost o0 = out@;
    let (top, left, n) = draw_overlay(out, theme, l, &texts);
    let mut t: Vec<char> = Vec::new();
    push_goto(&mut t, top + n + 1, left);
    push_style(&mut t, theme, StyleId::Hint, StyleState::Normal);
    push_str(&mut t, "  theme: ");
    push_str(&mut t, theme.name());
    push_reset(&mut t);
    push_all(out, t.as_slice());
    assert(out@ =~= o0 + help_text(
        theme.sgr_table(),
        theme.model().name,
        l.cols as int,
        l.lines as int,
    ));
}

pub fn draw_about(out: &mut Vec<char>, theme: &Theme, l: &Layout)
    requires
        theme.wf(),
        0 <= l.cols <= 65535,
        0 <= l.lines <= 65535,
    ensures
        final(out)@ == old(out)@ + overlay_text(
            theme.sgr_table(),
            about_lines(),
            l.cols as int,
            l.lines as int,
        ),
{
    let texts = about_texts();
    let _ = draw_overlay(out, theme, l, &texts);
}

pub fn draw_history(
    out: &mut Vec<char>,
    theme: &Theme,
    l: &Layout,
    h: &Vec<String>,
    msg: &Option<String>,
)
    requires
        theme.wf(),
        0 <= l.cols <= 65535,
        0 <= l.lines <= 65535,
    ensures
        final(out)@ == old(out)@ + history_text(
            theme.sgr_table(),
            views(h@),
            match msg {
                Some(m) => Some(m@),
                None => None,
            },
            l.cols as int,
            l.lines as int,
        ),
{
    let texts = history_texts(h, l.lines);
    let ghost o0 = out@;
    let (top, left, n) = draw_overlay(out, theme, l, &texts);
    match msg {
        Some(m) => {
            let mut t: Vec<char> = Vec::new();
            push_goto(&mut t, top + n + 1, left);
            push_style(&mut t, theme, StyleId::Hint, StyleState::Normal);
            push_str(&mut t, "  ");
            push_str(&mut t, m.as_str());
            push_reset(&mut t);
            push_all(out, t.as_slice());
        },
        None => {},
    }
    assert(out@ =~= o0 + history_text(
        theme.sgr_table(),
        views(h@),
        match msg {
            Some(m) => Some(m@),
            None => None,
        },
        l.cols as int,
        l.lines as int,
    ));
}

// ------------------------------------------------------------ the screen

/// Full-screen overlays that replace the keypad while shown.
#[derive(Clone, Copy, PartialEq, Eq, Debug, Structural)]
pub enum Overlay {
    Off,
    Help,
    About,
    History,
}

/// Button `k` in reading order, in its state.
#[verifier::opaque]
pub open spec fn nth_btn_text(
    tab: Seq<Seq<char>>,
    c: ChromeView,
    l: Layout,
    base: Base,
    inv: bool,
    focus: (int, int),
    k: int,
) -> Seq<char> {
    let (r, i) = flat_pos(k);
    btn_text(
        tab,
        c,
        spec_rect(l, r, i),
        spec_button(r, i),
        btn_state(focus == (r, i), base, inv, spec_button(r, i)),
    )
}

/// The first `k` buttons in reading order, each in its state.
pub open spec fn keypad_text(
    tab: Seq<Seq<char>>,
    c: ChromeView,
    l: Layout,
    base: Base,
    inv: bool,
    focus: (int, int),
    k: int,
) -> Seq<char>
    decreases k,
{
    if k <= 0 {
        Seq::empty()
    } else {
        keypad_text(tab, c, l, base, inv, focus, k - 1) + nth_btn_text(
            tab,
            c,
            l,
            base,
            inv,
            focus,
            k - 1,
        )
    }
}

/// The smallest terminal the calculator fits.
pub const MIN_COLS: i32 = 74;

pub const MIN_ROWS: i32 = 20;

/// What a terminal too small to draw on shows.
pub open spec fn too_small_text(cols: int, lines: int) -> Seq<char> {
    goto(1, 1) + "gbcalc needs at least 74x20, terminal is "@ + int_chars(cols) + "x"@ + int_chars(lines)
        + goto(2, 1) + "resize the window, or press q to quit"@
}

/// The main screen: the frame, every button in its state, and the hint.
pub open spec fn main_text(
    tab: Seq<Seq<char>>,
    c: ChromeView,
    l: Layout,
    f: FrameInfo,
    focus: (int, int),
) -> Seq<char> {
    frame_text(tab, c, f, l.ox as int, l.oy as int) + keypad_text(
        tab,
        c,
        l,
        f.base,
        f.inv,
        focus,
        62,
    ) + hint_text(tab, l.ox as int, l.oy as int)
}

/// What the screen shows: the too-small notice, an overlay, or the main
/// screen.
pub open spec fn body_text(
    tab: Seq<Seq<char>>,
    c: ChromeView,
    name: Seq<char>,
    l: Layout,
    f: FrameInfo,
    focus: (int, int),
    overlay: Overlay,
    h: Seq<Seq<char>>,
    msg: Option<Seq<char>>,
) -> Seq<char> {
    if l.cols < MIN_COLS || l.lines < MIN_ROWS {
        too_small_text(l.cols as int, l.lines as int)
    } else {
        match overlay {
            Overlay::Help => help_text(tab, name, l.cols as int, l.lines as int),
            Overlay::About => overlay_text(tab, about_lines(), l.cols as int, l.lines as int),
            Overlay::History => history_text(tab, h, msg, l.cols as int, l.lines as int),
            Overlay::Off => main_text(tab, c, l, f, focus),
        }
    }
}

/// The whole screen: cleared, then what it shows, with the cursor left in
/// the bottom-right corner.
pub open spec fn screen_text(
    tab: Seq<Seq<char>>,
    c: ChromeView,
    name: Seq<char>,
    l: Layout,
    f: FrameInfo,
    focus: (int, int),
    overlay: Overlay,
    h: Seq<Seq<char>>,
    msg: Option<Seq<char>>,
) -> Seq<char> {
    reset() + "\x1b[2J"@ + body_text(tab, c, name, l, f, focus, overlay, h, msg) + goto(
        l.lines as int,
        l.cols as int,
    )
}

fn draw_nth_btn(
    out: &mut Vec<char>,
    theme: &Theme,
    l: &Layout,
    f: &FrameInfo,
    focus: (usize, usize),
    k: usize,
)
    requires
        theme.wf(),
        1 <= l.ox <= 40000,
        1 <= l.oy <= 40000,
        k < N_BUTTONS,
    ensures
        final(out)@ == old(out)@ + nth_btn_text(
            theme.sgr_table(),
            theme.model().chrome,
            *l,
            f.base,
            f.inv,
            (focus.0 as int, focus.1 as int),
            k as int,
        ),
{
    let (r, i) = flat_pos_exec(k);
    draw_btn(out, theme, l, f.base, f.inv, focus, r, i);
    proof {
        reveal(nth_btn_text);
    }
}

fn draw_keypad(out: &mut Vec<char>, theme: &Theme, l: &Layout, f: &FrameInfo, focus: (usize, usize))
    requires
        theme.wf(),
        1 <= l.ox <= 40000,
        1 <= l.oy <= 40000,
    ensures
        final(out)@ == old(out)@ + keypad_text(
            theme.sgr_table(),
            theme.model().chrome,
            *l,
            f.base,
            f.inv,
            (focus.0 as int, focus.1 as int),
            62,
        ),
{
    let ghost o0 = out@;
    let mut k: usize = 0;
    while k < N_BUTTONS
        invariant
            theme.wf(),
            1 <= l.ox <= 40000,
            1 <= l.oy <= 40000,
            k <= N_BUTTONS,
            out@ == o0 + keypad_text(
                theme.sgr_table(),
                theme.model().chrome,
                *l,
                f.base,
                f.inv,
                (focus.0 as int, focus.1 as int),
                k as int,
            ),
        decreases N_BUTTONS - k,
    {
        draw_nth_btn(out, theme, l, f, focus, k);
        k += 1;
        assert(out@ =~= o0 + keypad_text(
            theme.sgr_table(),
            theme.model().chrome,
            *l,
            f.base,
            f.inv,
            (focus.0 as int, focus.1 as int),
            k as int,
        ));
    }
}

fn draw_too_small(out: &mut Vec<char>, l: &Layout)
    ensures
        final(out)@ == old(out)@ + too_small_text(l.cols as int, l.lines as int),
{
    let mut t: Vec<char> = Vec::new();
    push_goto(&mut t, 1, 1);
    push_str(&mut t, "gbcalc needs at least 74x20, terminal is ");
    push_int(&mut t, l.cols);
    push_str(&mut t, "x");
    push_int(&mut t, l.lines);
    push_goto(&mut t, 2, 1);
    push_str(&mut t, "resize the window, or press q to quit");
    assert(t@ =~= too_small_text(l.cols as int, l.lines as int));
    push_all(out, t.as_slice());
}

fn draw_main(out: &mut Vec<char>, theme: &Theme, l: &Layout, f: &FrameInfo, focus: (usize, usize))
    requires
        theme.wf(),
        1 <= l.ox <= 40000,
        1 <= l.oy <= 40000,
    ensures
        final(out)@ == old(out)@ + main_text(
            theme.sgr_table(),
            theme.model().chrome,
            *l,
            *f,
            (focus.0 as int, focus.1 as int),
        ),
{
    let ghost o0 = out@;
    draw_frame(out, theme, l, f);
    draw_keypad(out, theme, l, f, focus);
    draw_hint(out, theme, l);
    assert(out@ =~= o0 + main_text(
        theme.sgr_table(),
        theme.model().chrome,
        *l,
        *f,
        (focus.0 as int, focus.1 as int),
    ));
}

fn draw_body(
    out: &mut Vec<char>,
    theme: &Theme,
    l: &Layout,
    f: &FrameInfo,
    focus: (usize, usize),
    overlay: Overlay,
    h: &Vec<String>,
    msg: &Option<String>,
)
    requires
        theme.wf(),
        0 <= l.cols <= 65535,
        0 <= l.lines <= 65535,
        1 <= l.ox <= 40000,
        1 <= l.oy <= 40000,
    ensures
        final(out)@ == old(out)@ + body_text(
            theme.sgr_table(),
            theme.model().chrome,
            theme.model().name,
            *l,
            *f,
            (focus.0 as int, focus.1 as int),
            overlay,
            views(h@),
            match msg {
                Some(m) => Some(m@),
                None => None,
            },
        ),
{
    if l.cols < MIN_COLS || l.lines < MIN_ROWS {
        draw_too_small(out, l);
    } else {
        match overlay {
            Overlay::Help => draw_help(out, theme, l),
            Overlay::About => draw_about(out, theme, l),
            Overlay::History => draw_history(out, theme, l, h, msg),
            Overlay::Off => draw_main(out, theme, l, f, focus),
        }
    }
}

/// The text that paints the whole screen.
pub fn render(
    theme: &Theme,
    l: &Layout,
    f: &FrameInfo,
    focus: (usize, usize),
    overlay: Overlay,
    h: &Vec<String>,
    msg: &Option<String>,
) -> (s: String)
    requires
        theme.wf(),
        0 <= l.cols <= 65535,
        0 <= l.lines <= 65535,
        1 <= l.ox <= 40000,
        1 <= l.oy <= 40000,
    ensures
        s@ == screen_text(
            theme.sgr_table(),
            theme.model().chrome,
            theme.model().name,
            *l,
            *f,
            (focus.0 as int, focus.1 as int),
            overlay,
            views(h@),
            match msg {
                Some(m) => Some(m@),
                None => None,
            },
        ),
{
    let mut out: Vec<char> = Vec::new();
    push_reset(&mut out);
    push_str(&mut out, "\x1b[2J");
    draw_body(&mut out, theme, l, f, focus, overlay, h, msg);
    push_goto(&mut out, l.lines, l.cols);
    assert(out@ =~= screen_text(
        theme.sgr_table(),
        theme.model().chrome,
        theme.model().name,
        *l,
        *f,
        (focus.0 as int, focus.1 as int),
        overlay,
        views(h@),
        match msg {
            Some(m) => Some(m@),
            None => None,
        },
    ));
    chars_to_string(out.as_slice())
}

} // verus!
