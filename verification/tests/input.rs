use gbcalc::calc::Base;
use gbcalc::input::{
    dispatch, key_step, Command, KeyState, KeyStep, UiState, KEY_DELETE, KEY_DOWN, KEY_END,
    KEY_HOME, KEY_LEFT, KEY_MOUSE, KEY_NONE, KEY_RIGHT, KEY_UP,
};
use gbcalc::keypad::{layout, rect};
use gbcalc::screen::Overlay;

/// Decode `bytes` as the terminal loop does: the first byte is read, then
/// each wait takes the next one, or nothing when they run out. Returns the
/// key, a click position, and a byte handed back for the next key.
fn decode(bytes: &[i32]) -> (i32, Option<(i32, i32)>, Option<i32>) {
    let mut i = 1;
    let mut step = key_step(KeyState::Start, Some(bytes[0]));
    loop {
        match step {
            KeyStep::Wait(st, _) => {
                let ev = if i < bytes.len() {
                    i += 1;
                    Some(bytes[i - 1])
                } else {
                    None
                };
                step = key_step(st, ev);
            }
            KeyStep::Key(k) => return (k, None, None),
            KeyStep::KeyUnread(k, b) => return (k, None, Some(b)),
            KeyStep::Click(x, y) => return (KEY_MOUSE, Some((x, y)), None),
        }
    }
}

fn bytes(s: &str) -> Vec<i32> {
    s.bytes().map(|b| b as i32).collect()
}

#[test]
fn plain_and_escape_keys() {
    assert_eq!(decode(&bytes("a")), ('a' as i32, None, None));
    assert_eq!(decode(&[27]), (27, None, None));
    assert_eq!(decode(&bytes("\x1b[A")), (KEY_UP, None, None));
    assert_eq!(decode(&bytes("\x1b[B")), (KEY_DOWN, None, None));
    assert_eq!(decode(&bytes("\x1bOC")), (KEY_RIGHT, None, None));
    assert_eq!(decode(&bytes("\x1b[D")), (KEY_LEFT, None, None));
    assert_eq!(decode(&bytes("\x1b[H")), (KEY_HOME, None, None));
    assert_eq!(decode(&bytes("\x1b[F")), (KEY_END, None, None));
    assert_eq!(decode(&bytes("\x1b[3~")), (KEY_DELETE, None, None));
    // Esc followed by another key: Esc now, the key next.
    assert_eq!(decode(&bytes("\x1bx")), (27, None, Some('x' as i32)));
    assert_eq!(decode(&bytes("\x1b[3x")), (KEY_NONE, None, Some('x' as i32)));
    assert_eq!(decode(&bytes("\x1b[")), (27, None, None));
    // An unknown sequence is skipped whole.
    assert_eq!(decode(&bytes("\x1b[1;5C")), (KEY_NONE, None, None));
    assert_eq!(decode(&[KEY_NONE]), (KEY_NONE, None, None));
}

#[test]
fn mouse_sequences() {
    assert_eq!(decode(&bytes("\x1b[<0;10;5M")), (KEY_MOUSE, Some((10, 5)), None));
    // Releases, other buttons and broken reports are no key.
    assert_eq!(decode(&bytes("\x1b[<0;10;5m")), (KEY_NONE, None, None));
    assert_eq!(decode(&bytes("\x1b[<2;10;5M")), (KEY_NONE, None, None));
    assert_eq!(decode(&bytes("\x1b[<0;10")), (KEY_NONE, None, None));
    let long = format!("\x1b[<{}M", "1".repeat(40));
    assert_eq!(decode(&bytes(&long)), (KEY_NONE, None, None));
}

fn off(fr: usize, fc: usize) -> UiState {
    UiState { overlay: Overlay::Off, fr, fc }
}

#[test]
fn keys_move_the_focus() {
    let l = layout(80, 24);
    let o = dispatch(off(11, 3), KEY_UP, Base::Dec, &l, 0, 0);
    assert_eq!(o.state, off(10, 3));
    assert_eq!(o.command, Command::Nothing);
    let o = dispatch(off(11, 3), KEY_DOWN, Base::Dec, &l, 0, 0);
    assert_eq!(o.state, off(0, 5));
    let o = dispatch(off(11, 0), KEY_LEFT, Base::Dec, &l, 0, 0);
    assert_eq!(o.state, off(11, 3));
    let o = dispatch(off(0, 5), KEY_RIGHT, Base::Dec, &l, 0, 0);
    assert_eq!(o.state, off(0, 0));
    let o = dispatch(off(3, 4), KEY_HOME, Base::Dec, &l, 0, 0);
    assert_eq!(o.state, off(3, 0));
    let o = dispatch(off(3, 1), KEY_END, Base::Dec, &l, 0, 0);
    assert_eq!(o.state, off(3, 5));
}

#[test]
fn keys_give_commands() {
    let l = layout(80, 24);
    let s = off(11, 3);
    assert_eq!(dispatch(s, 'q' as i32, Base::Dec, &l, 0, 0).command, Command::Quit);
    assert_eq!(dispatch(s, 3, Base::Dec, &l, 0, 0).command, Command::Quit);
    assert_eq!(dispatch(s, 12, Base::Dec, &l, 0, 0).command, Command::Relayout);
    assert_eq!(dispatch(s, 27, Base::Dec, &l, 0, 0).command, Command::Clear);
    assert_eq!(dispatch(s, 127, Base::Dec, &l, 0, 0).command, Command::Backspace);
    assert_eq!(dispatch(s, '\t' as i32, Base::Dec, &l, 0, 0).command, Command::CycleBase);
    assert_eq!(dispatch(s, KEY_DELETE, Base::Dec, &l, 0, 0).command, Command::AllClear);
    assert_eq!(dispatch(s, '\r' as i32, Base::Dec, &l, 0, 0).command, Command::Press(11, 3));
    assert_eq!(dispatch(s, '7' as i32, Base::Dec, &l, 0, 0).command, Command::Press(7, 0));
    assert_eq!(dispatch(s, 'z' as i32, Base::Dec, &l, 0, 0).command, Command::Nothing);
    assert_eq!(dispatch(s, KEY_NONE, Base::Dec, &l, 0, 0).command, Command::Nothing);
    // A shortcut presses its button without moving the focus.
    assert_eq!(dispatch(s, '7' as i32, Base::Dec, &l, 0, 0).state, s);
}

#[test]
fn overlays_open_and_close() {
    let l = layout(80, 24);
    let s = off(11, 3);
    let o = dispatch(s, '?' as i32, Base::Dec, &l, 0, 0);
    assert_eq!(o.state.overlay, Overlay::Help);
    let o = dispatch(o.state, 'x' as i32, Base::Dec, &l, 0, 0);
    assert_eq!(o.state.overlay, Overlay::Off);
    assert_eq!(o.command, Command::Nothing);
    assert!(o.drop_message);

    let o = dispatch(s, 'h' as i32, Base::Dec, &l, 0, 0);
    assert_eq!(o.state.overlay, Overlay::History);
    let saved = dispatch(o.state, 'S' as i32, Base::Dec, &l, 0, 0);
    assert_eq!(saved.command, Command::SaveHistory);
    assert_eq!(saved.state.overlay, Overlay::History);
    let quit = dispatch(o.state, 'q' as i32, Base::Dec, &l, 0, 0);
    assert_eq!(quit.command, Command::Quit);

    let o = dispatch(s, 'I' as i32, Base::Dec, &l, 0, 0);
    assert_eq!(o.state.overlay, Overlay::About);
    // In the about overlay, S just closes it.
    let o = dispatch(o.state, 'S' as i32, Base::Dec, &l, 0, 0);
    assert_eq!(o.state.overlay, Overlay::Off);
}

#[test]
fn clicks_press_and_focus() {
    let l = layout(80, 24);
    let rc = rect(&l, 7, 1);
    let o = dispatch(off(11, 3), KEY_MOUSE, Base::Dec, &l, rc.x + 2, rc.y);
    assert_eq!(o.state, off(7, 1));
    assert_eq!(o.command, Command::Press(7, 1));
    let o = dispatch(off(11, 3), KEY_MOUSE, Base::Dec, &l, 1, 1);
    assert_eq!(o.command, Command::Nothing);
    let help = UiState { overlay: Overlay::Help, fr: 11, fc: 3 };
    let o = dispatch(help, KEY_MOUSE, Base::Dec, &l, rc.x, rc.y);
    assert_eq!(o.state.overlay, Overlay::Off);
    assert_eq!(o.command, Command::Nothing);
}

#[test]
fn focus_starts_on_equals() {
    let s = gbcalc::input::start_state();
    assert_eq!(s, off(11, 3));
    assert_eq!(gbcalc::keypad::button(s.fr, s.fc).label, "=");
    let l = layout(80, 24);
    assert_eq!(dispatch(s, '\n' as i32, Base::Dec, &l, 0, 0).command, Command::Press(11, 3));
}
