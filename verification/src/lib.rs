//! gbcalc: a terminal scientific calculator's verified core -- the
//! calculator's state machine, bases and bitwise operators, the theme
//! language and its escape sequences, the keypad, input decoding and key
//! dispatch, the screen text, and where themes are found.

pub mod calc;
pub mod engine;
pub mod input;
pub mod keypad;
pub mod reapply;
pub mod screen;
pub mod search;
pub mod style;
pub mod text;
pub mod theme;
