# gbcalc

A terminal scientific calculator, verified with Verus where it computes:
the calculator's state machine, the theme language, the keypad, input
decoding and what the screen shows.

- `src/` is the verified library:
  - `engine.rs`: the entry buffer, the precedence stack, parentheses,
    memory, the error latch and the history log, over any value type.
  - `calc.rs`: bases, operators and their precedence, bitwise operations,
    hexadecimal and binary rendering.
  - `style.rs`, `theme.rs`: styles, colour reduction, the theme file
    format and the escape sequences built from it.
  - `keypad.rs`, `input.rs`, `screen.rs`: the button table and layout,
    key and mouse decoding, what each key does, and the screen text.
  - `search.rs`: the theme search path and what the environment says.
  - `text.rs`: character-sequence helpers.
- `app/` is the program around it: arguments, the terminal, files, and the
  floating-point arithmetic the engine is handed values from.
- `tests/` runs the library on concrete cases.
