//! Keyboard and mouse input: turning the bytes a terminal sends into keys,
//! and deciding what each key does to the interface. The caller reads the
//! bytes (waiting as told) and carries out the commands.

use vstd::prelude::*;
use crate::calc::Base;
use crate::keypad::{
    find_key, focus_row, hit_test, row_len, row_width, parse_mouse_press, spec_button,
    spec_find_key, spec_mouse_press, first_hit, flat_pos, nearest_in_row, spec_rect, wrap_row,
    Action, Layout, NROWS,
};
use crate::screen::Overlay;

verus! {

pub const KEY_UP: i32 = 0x100;

pub const KEY_DOWN: i32 = 0x101;

pub const KEY_LEFT: i32 = 0x102;

pub const KEY_RIGHT: i32 = 0x103;

pub const KEY_HOME: i32 = 0x104;

pub const KEY_END: i32 = 0x105;

pub const KEY_DELETE: i32 = 0x106;

pub const KEY_MOUSE: i32 = 0x107;

/// No key: nothing usable was read.
pub const KEY_NONE: i32 = -1;

/// The longest mouse report kept.
pub const MOUSE_MAX: usize = 31;

// ------------------------------------------------------------ decoding

/// Where the decoder is within an escape sequence.
pub enum KeyState {
    /// Nothing read yet.
    Start,
    /// After `ESC`.
    Esc,
    /// After `ESC [` or `ESC O`.
    Intro,
    /// After `ESC [ 3`, which `~` completes as Delete.
    Three,
    /// Inside an unrecognised sequence, skipping its parameter bytes.
    Swallow,
    /// Inside a mouse report, after `ESC [ <`: the bytes so far.
    Mouse(Vec<u8>),
}

pub enum KeyStateView {
    Start,
    Esc,
    Intro,
    Three,
    Swallow,
    Mouse(Seq<u8>),
}

impl View for KeyState {
    type V = KeyStateView;

    open spec fn view(&self) -> KeyStateView {
        match self {
            KeyState::Start => KeyStateView::Start,
            KeyState::Esc => KeyStateView::Esc,
            KeyState::Intro => KeyStateView::Intro,
            KeyState::Three => KeyStateView::Three,
            KeyState::Swallow => KeyStateView::Swallow,
            KeyState::Mouse(b) => KeyStateView::Mouse(b@),
        }
    }
}

/// What the reader does next.
pub enum KeyStep {
    /// Wait up to this many milliseconds for a byte, then step again with
    /// it (or with nothing).
    Wait(KeyState, i32),
    /// The key is complete.
    Key(i32),
    /// The key is complete; the byte read last belongs to the next key.
    KeyUnread(i32, i32),
    /// A left-button press at a column and row.
    Click(i32, i32),
}

pub enum KeyStepView {
    Wait(KeyStateView, i32),
    Key(i32),
    KeyUnread(i32, i32),
    Click(i32, i32),
}

impl View for KeyStep {
    type V = KeyStepView;

    open spec fn view(&self) -> KeyStepView {
        match self {
            KeyStep::Wait(s, ms) => KeyStepView::Wait(s@, *ms),
            KeyStep::Key(k) => KeyStepView::Key(*k),
            KeyStep::KeyUnread(k, b) => KeyStepView::KeyUnread(*k, *b),
            KeyStep::Click(x, y) => KeyStepView::Click(*x, *y),
        }
    }
}

/// A parameter byte of a control sequence (`0` to `?`).
pub open spec fn is_param(ch: int) -> bool {
    '0' as int <= ch <= '?' as int
}

/// One step of decoding: from the state and the byte read (`None` when
/// none came in time; `KEY_NONE` when the read failed) to what comes next.
/// A bare `ESC`, or one followed by anything but `[` or `O`, is the Escape
/// key; `ESC [` then `A` `B` `C` `D` `H` `F` are the arrows, Home and End;
/// `ESC [ 3 ~` is Delete; `ESC [ <` starts a mouse report, which counts
/// only as a left-button press; any other sequence is skipped.
pub open spec fn spec_key_step(st: KeyStateView, ev: Option<i32>) -> KeyStepView {
    match st {
        KeyStateView::Start => match ev {
            Some(ch) => if ch != 0x1b {
                KeyStepView::Key(ch)
            } else {
                KeyStepView::Wait(KeyStateView::Esc, 30)
            },
            None => KeyStepView::Key(KEY_NONE),
        },
        KeyStateView::Esc => match ev {
            None => KeyStepView::Key(0x1b),
            Some(ch) => if ch != '[' as i32 && ch != 'O' as i32 {
                KeyStepView::KeyUnread(0x1b, ch)
            } else {
                KeyStepView::Wait(KeyStateView::Intro, 30)
            },
        },
        KeyStateView::Intro => match ev {
            None => KeyStepView::Key(0x1b),
            Some(ch) => if ch == 'A' as i32 {
                KeyStepView::Key(KEY_UP)
            } else if ch == 'B' as i32 {
                KeyStepView::Key(KEY_DOWN)
            } else if ch == 'C' as i32 {
                KeyStepView::Key(KEY_RIGHT)
            } else if ch == 'D' as i32 {
                KeyStepView::Key(KEY_LEFT)
            } else if ch == 'H' as i32 {
                KeyStepView::Key(KEY_HOME)
            } else if ch == 'F' as i32 {
                KeyStepView::Key(KEY_END)
            } else if ch == '<' as i32 {
                KeyStepView::Wait(KeyStateView::Mouse(Seq::empty()), 50)
            } else if ch == '3' as i32 {
                KeyStepView::Wait(KeyStateView::Three, 30)
            } else if is_param(ch as int) {
                KeyStepView::Wait(KeyStateView::Swallow, 10)
            } else {
                KeyStepView::Key(KEY_NONE)
            },
        },
        KeyStateView::Three => match ev {
            None => KeyStepView::Key(KEY_NONE),
            Some(t) => if t == '~' as i32 {
                KeyStepView::Key(KEY_DELETE)
            } else {
                KeyStepView::KeyUnread(KEY_NONE, t)
            },
        },
        KeyStateView::Swallow => match ev {
            Some(ch) => if is_param(ch as int) {
                KeyStepView::Wait(KeyStateView::Swallow, 10)
            } else {
                KeyStepView::Key(KEY_NONE)
            },
            None => KeyStepView::Key(KEY_NONE),
        },
        KeyStateView::Mouse(buf) => match ev {
            None => KeyStepView::Key(KEY_NONE),
            Some(ch) => if ch == KEY_NONE || ch == 'm' as i32 {
                KeyStepView::Key(KEY_NONE)
            } else if ch == 'M' as i32 {
                match spec_mouse_press(buf) {
                    Some((x, y)) => KeyStepView::Click(x, y),
                    None => KeyStepView::Key(KEY_NONE),
                }
            } else if buf.len() + 1 >= MOUSE_MAX {
                KeyStepView::Key(KEY_NONE)
            } else {
                KeyStepView::Wait(KeyStateView::Mouse(buf.push(ch as u8)), 50)
            },
        },
    }
}

pub fn key_step(st: KeyState, ev: Option<i32>) -> (r: KeyStep)
    requires
        st matches KeyState::Mouse(b) ==> b@.len() < MOUSE_MAX,
        ev matches Some(ch) ==> -1 <= ch <= 255,
    ensures
        r@ == spec_key_step(st@, ev),
        r matches KeyStep::Wait(KeyState::Mouse(b), _) ==> b@.len() < MOUSE_MAX,
{
    match st {
        KeyState::Start => match ev {
            Some(ch) => if ch != 0x1b {
                KeyStep::Key(ch)
            } else {
                KeyStep::Wait(KeyState::Esc, 30)
            },
            None => KeyStep::Key(KEY_NONE),
        },
        KeyState::Esc => match ev {
            None => KeyStep::Key(0x1b),
            Some(ch) => if ch != '[' as i32 && ch != 'O' as i32 {
                KeyStep::KeyUnread(0x1b, ch)
            } else {
                KeyStep::Wait(KeyState::Intro, 30)
            },
        },
        KeyState::Intro => match ev {
            None => KeyStep::Key(0x1b),
            Some(ch) => if ch == 'A' as i32 {
                KeyStep::Key(KEY_UP)
            } else if ch == 'B' as i32 {
                KeyStep::Key(KEY_DOWN)
            } else if ch == 'C' as i32 {
                KeyStep::Key(KEY_RIGHT)
            } else if ch == 'D' as i32 {
                KeyStep::Key(KEY_LEFT)
            } else if ch == 'H' as i32 {
                KeyStep::Key(KEY_HOME)
            } else if ch == 'F' as i32 {
                KeyStep::Key(KEY_END)
            } else if ch == '<' as i32 {
                let b: Vec<u8> = Vec::new();
                assert(b@ =~= Seq::<u8>::empty());
                KeyStep::Wait(KeyState::Mouse(b), 50)
            } else if ch == '3' as i32 {
                KeyStep::Wait(KeyState::Three, 30)
            } else if '0' as i32 <= ch && ch <= '?' as i32 {
                KeyStep::Wait(KeyState::Swallow, 10)
            } else {
                KeyStep::Key(KEY_NONE)
            },
        },
        KeyState::Three => match ev {
            None => KeyStep::Key(KEY_NONE),
            Some(t) => if t == '~' as i32 {
                KeyStep::Key(KEY_DELETE)
            } else {
                KeyStep::KeyUnread(KEY_NONE, t)
            },
        },
        KeyState::Swallow => match ev {
            Some(ch) => if '0' as i32 <= ch && ch <= '?' as i32 {
                KeyStep::Wait(KeyState::Swallow, 10)
            } else {
                KeyStep::Key(KEY_NONE)
            },
            None => KeyStep::Key(KEY_NONE),
        },
        KeyState::Mouse(buf) => match ev {
            None => KeyStep::Key(KEY_NONE),
            Some(ch) => if ch == KEY_NONE || ch == 'm' as i32 {
                KeyStep::Key(KEY_NONE)
            } else if ch == 'M' as i32 {
                match parse_mouse_press(buf.as_slice()) {
                    Some((x, y)) => KeyStep::Click(x, y),
                    None => KeyStep::Key(KEY_NONE),
                }
            } else if buf.len() + 1 >= MOUSE_MAX {
                KeyStep::Key(KEY_NONE)
            } else {
                let mut b = buf;
                b.push(ch as u8);
                KeyStep::Wait(KeyState::Mouse(b), 50)
            },
        },
    }
}

// ------------------------------------------------------------ dispatch

/// The interface's own state: which overlay is shown and which button has
/// the focus.
#[derive(Clone, Copy, PartialEq, Eq, Debug, Structural)]
pub struct UiState {
    pub overlay: Overlay,
    pub fr: usize,
    pub fc: usize,
}

/// The focus is on an existing button.
pub open spec fn focus_ok(s: UiState) -> bool {
    s.fr < NROWS && (s.fc as int) < row_len(s.fr as int)
}

/// The interface at start: no overlay, the focus on `=` so that Enter
/// evaluates straight away.
pub fn start_state() -> (s: UiState)
    ensures
        s.overlay == Overlay::Off,
        focus_ok(s),
        spec_button(s.fr as int, s.fc as int).act == Action::Equals,
{
    UiState { overlay: Overlay::Off, fr: NROWS - 1, fc: 3 }
}

/// What a key asks of the calculator and the program.
#[derive(Clone, Copy, PartialEq, Eq, Debug, Structural)]
pub enum Command {
    Nothing,
    Quit,
    /// Lay the screen out again (Ctrl-L).
    Relayout,
    AllClear,
    Clear,
    Backspace,
    CycleBase,
    /// Press the button at this row and column.
    Press(usize, usize),
    /// Write the history to a file.
    SaveHistory,
}

/// The outcome of a key: the new interface state, the command, and whether
/// the history overlay's status message is dropped.
pub struct Outcome {
    pub state: UiState,
    pub command: Command,
    pub drop_message: bool,
}

pub open spec fn out(state: UiState, command: Command, drop_message: bool) -> Outcome {
    Outcome { state, command, drop_message }
}

/// A key whose meaning does not depend on the focus moves or the layout:
/// with an overlay shown any key closes it (quit still quits, and `S`
/// saves the history without closing its overlay); otherwise quit, the
/// overlays, redraw, the editing keys, Tab, Enter/space on the focused
/// button, and last the buttons' own shortcut keys.
pub open spec fn spec_key_command(s: UiState, key: i32, base: Base) -> Outcome {
    if s.overlay != Overlay::Off {
        if key == 'q' as i32 || key == 3 {
            out(s, Command::Quit, false)
        } else if s.overlay == Overlay::History && key == 'S' as i32 {
            out(s, Command::SaveHistory, false)
        } else {
            out(UiState { overlay: Overlay::Off, ..s }, Command::Nothing, true)
        }
    } else if key == 'q' as i32 || key == 3 || key == 4 {
        out(s, Command::Quit, false)
    } else if key == '?' as i32 {
        out(UiState { overlay: Overlay::Help, ..s }, Command::Nothing, false)
    } else if key == 'I' as i32 {
        out(UiState { overlay: Overlay::About, ..s }, Command::Nothing, false)
    } else if key == 'h' as i32 {
        out(UiState { overlay: Overlay::History, ..s }, Command::Nothing, true)
    } else if key == 12 {
        out(s, Command::Relayout, false)
    } else if key == 0x1b {
        out(s, Command::Clear, false)
    } else if key == 127 || key == 8 {
        out(s, Command::Backspace, false)
    } else if key == '\t' as i32 {
        out(s, Command::CycleBase, false)
    } else if key == '\r' as i32 || key == '\n' as i32 || key == ' ' as i32 {
        out(s, Command::Press(s.fr, s.fc), false)
    } else {
        match spec_find_key(base, key as int) {
            Some((r, c)) => out(s, Command::Press(r as usize, c as usize), false),
            None => out(s, Command::Nothing, false),
        }
    }
}

/// `q` and Ctrl-C quit from anywhere. While an overlay is shown, any other
/// key (past the focus keys, Delete and clicks) only closes it -- or, in
/// the history, `S` saves it -- and never presses a button.
pub proof fn lemma_overlay_keys(s: UiState, key: i32, base: Base)
    ensures
        (key == 'q' as i32 || key == 3) ==> spec_key_command(s, key, base).command == Command::Quit,
        s.overlay != Overlay::Off ==> {
            let o = spec_key_command(s, key, base);
            ||| o.command == Command::Quit
            ||| o.command == Command::SaveHistory && s.overlay == Overlay::History && o.state == s
            ||| o.command == Command::Nothing && o.state.overlay == Overlay::Off && o.drop_message
        },
{
}

/// What key `key` does; `(mx, my)` is where a click landed. The arrows,
/// Home and End move the focus (up and down to the nearest button of the
/// next row, wrapping; left and right within the row, wrapping); Delete
/// clears everything; a click closes an overlay or presses the button
/// under it, which takes the focus.
pub open spec fn dispatch_ok(
    s: UiState,
    key: i32,
    base: Base,
    l: Layout,
    mx: i32,
    my: i32,
    o: Outcome,
) -> bool {
    let n = row_len(s.fr as int);
    if key == KEY_NONE {
        o == out(s, Command::Nothing, false)
    } else if key == KEY_UP || key == KEY_DOWN {
        let row = if key == KEY_UP {
            s.fr - 1
        } else {
            s.fr + 1
        };
        &&& o.command == Command::Nothing
        &&& !o.drop_message
        &&& o.state.overlay == s.overlay
        &&& o.state.fr == wrap_row(row)
        &&& nearest_in_row(
            l,
            o.state.fr as int,
            spec_rect(l, s.fr as int, s.fc as int).x + spec_rect(l, s.fr as int, s.fc as int).w / 2,
            o.state.fc as int,
        )
    } else if key == KEY_LEFT {
        o == out(UiState { fc: ((s.fc + n - 1) % n) as usize, ..s }, Command::Nothing, false)
    } else if key == KEY_RIGHT {
        o == out(UiState { fc: ((s.fc + 1) % n) as usize, ..s }, Command::Nothing, false)
    } else if key == KEY_HOME {
        o == out(UiState { fc: 0, ..s }, Command::Nothing, false)
    } else if key == KEY_END {
        o == out(UiState { fc: (n - 1) as usize, ..s }, Command::Nothing, false)
    } else if key == KEY_DELETE {
        o == out(s, Command::AllClear, false)
    } else if key == KEY_MOUSE {
        if s.overlay != Overlay::Off {
            o == out(UiState { overlay: Overlay::Off, ..s }, Command::Nothing, true)
        } else {
            match first_hit(l, mx as int, my as int, 0) {
                Some(k) => {
                    let (r, c) = flat_pos(k);
                    o == out(
                        UiState { fr: r as usize, fc: c as usize, ..s },
                        Command::Press(r as usize, c as usize),
                        false,
                    )
                },
                None => o == out(s, Command::Nothing, false),
            }
        }
    } else {
        o == spec_key_command(s, key, base)
    }
}

fn key_command(s: UiState, key: i32, base: Base) -> (o: Outcome)
    ensures
        o == spec_key_command(s, key, base),
{
    if s.overlay != Overlay::Off {
        if key == 'q' as i32 || key == 3 {
            Outcome { state: s, command: Command::Quit, drop_message: false }
        } else if s.overlay == Overlay::History && key == 'S' as i32 {
            Outcome { state: s, command: Command::SaveHistory, drop_message: false }
        } else {
            Outcome {
                state: UiState { overlay: Overlay::Off, ..s },
                command: Command::Nothing,
                drop_message: true,
            }
        }
    } else if key == 'q' as i32 || key == 3 || key == 4 {
        Outcome { state: s, command: Command::Quit, drop_message: false }
    } else if key == '?' as i32 {
        Outcome {
            state: UiState { overlay: Overlay::Help, ..s },
            command: Command::Nothing,
            drop_message: false,
        }
    } else if key == 'I' as i32 {
        Outcome {
            state: UiState { overlay: Overlay::About, ..s },
            command: Command::Nothing,
            drop_message: false,
        }
    } else if key == 'h' as i32 {
        Outcome {
            state: UiState { overlay: Overlay::History, ..s },
            command: Command::Nothing,
            drop_message: true,
        }
    } else if key == 12 {
        Outcome { state: s, command: Command::Relayout, drop_message: false }
    } else if key == 0x1b {
        Outcome { state: s, command: Command::Clear, drop_message: false }
    } else if key == 127 || key == 8 {
        Outcome { state: s, command: Command::Backspace, drop_message: false }
    } else if key == '\t' as i32 {
        Outcome { state: s, command: Command::CycleBase, drop_message: false }
    } else if key == '\r' as i32 || key == '\n' as i32 || key == ' ' as i32 {
        Outcome { state: s, command: Command::Press(s.fr, s.fc), drop_message: false }
    } else {
        match find_key(base, key) {
            Some((r, c)) => Outcome { state: s, command: Command::Press(r, c), drop_message: false },
            None => Outcome { state: s, command: Command::Nothing, drop_message: false },
        }
    }
}

/// Decide what key `key` does.
pub fn dispatch(s: UiState, key: i32, base: Base, l: &Layout, mx: i32, my: i32) -> (o: Outcome)
    requires
        focus_ok(s),
        1 <= l.ox <= 40000,
        1 <= l.oy <= 40000,
    ensures
        dispatch_ok(s, key, base, *l, mx, my, o),
        focus_ok(o.state),
{
    let n = row_width(s.fr);
    if key == KEY_NONE {
        Outcome { state: s, command: Command::Nothing, drop_message: false }
    } else if key == KEY_UP || key == KEY_DOWN {
        let row: i32 = if key == KEY_UP {
            s.fr as i32 - 1
        } else {
            s.fr as i32 + 1
        };
        let (fr, fc) = focus_row(l, s.fr, s.fc, row);
        Outcome { state: UiState { fr, fc, ..s }, command: Command::Nothing, drop_message: false }
    } else if key == KEY_LEFT {
        Outcome {
            state: UiState { fc: (s.fc + n - 1) % n, ..s },
            command: Command::Nothing,
            drop_message: false,
        }
    } else if key == KEY_RIGHT {
        Outcome {
            state: UiState { fc: (s.fc + 1) % n, ..s },
            command: Command::Nothing,
            drop_message: false,
        }
    } else if key == KEY_HOME {
        Outcome { state: UiState { fc: 0, ..s }, command: Command::Nothing, drop_message: false }
    } else if key == KEY_END {
        Outcome { state: UiState { fc: n - 1, ..s }, command: Command::Nothing, drop_message: false }
    } else if key == KEY_DELETE {
        Outcome { state: s, command: Command::AllClear, drop_message: false }
    } else if key == KEY_MOUSE {
        if s.overlay != Overlay::Off {
            Outcome {
                state: UiState { overlay: Overlay::Off, ..s },
                command: Command::Nothing,
                drop_message: true,
            }
        } else {
            match hit_test(l, mx, my) {
                Some((r, c)) => Outcome {
                    state: UiState { fr: r, fc: c, ..s },
                    command: Command::Press(r, c),
                    drop_message: false,
                },
                None => Outcome { state: s, command: Command::Nothing, drop_message: false },
            }
        }
    } else {
        key_command(s, key, base)
    }
}

} // verus!
