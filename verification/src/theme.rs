//! The theme language: a line-oriented text format that sets the colours,
//! attributes and frame glyphs of every style slot. The built-in default
//! theme is itself written in this format and read by the same parser, so
//! a user theme file is a partial override of it.

use vstd::prelude::*;
use crate::style::{
    build_sgr_text, empty_style, lemma_id_index, lemma_state_index, merge, merged, no_color,
    sgr_text, sgr_valid, lemma_sgr_text_valid, attr_params, sid, stid, style_empty, style_wf, color_wf, Color,
    ColorKind, ColorMode, Style,
    StyleId, StyleState, ATTR_BOLD, ATTR_CLEAR, ATTR_DIM, ATTR_ITALIC, ATTR_REVERSE, ATTR_SWAP,
    ATTR_SWAPPED, ATTR_UNDER, SET_BG, SET_FG,
};
use crate::text::{
    chars_to_string, dec_chars, eq_str, first_word, has_prefix, has_suffix, push_all, push_dec,
    push_str, split_chars, split_first, split_first_token, split_on, split_words, str_chars,
    lemma_split_join,
    string_of, strip_prefix_str, sub_chars, trim_end_sep, trim_end_seps, words,
};

verus! {

broadcast use vstd::seq_lib::group_seq_properties;

// ------------------------------------------------------------ colours

/// Whether `c` is an ASCII hexadecimal digit.
pub open spec fn is_hex(c: char) -> bool {
    ('0' <= c && c <= '9') || ('a' <= c && c <= 'f') || ('A' <= c && c <= 'F')
}

/// Value of an ASCII hexadecimal digit.
pub open spec fn hex_val(c: char) -> int {
    if '0' <= c && c <= '9' {
        c as int - '0' as int
    } else if 'a' <= c && c <= 'f' {
        c as int - 'a' as int + 10
    } else {
        c as int - 'A' as int + 10
    }
}

pub open spec fn rgb(r: int, g: int, b: int) -> Color {
    Color { kind: ColorKind::Rgb, idx: 0, r: r as i32, g: g as i32, b: b as i32 }
}

pub open spec fn indexed(n: int) -> Color {
    Color { kind: ColorKind::Idx, idx: n as i32, r: 0, g: 0, b: 0 }
}

/// `rgb` or `rrggbb` in hexadecimal.
pub open spec fn spec_hex_color(s: Seq<char>) -> Option<Color> {
    if (s.len() == 3 || s.len() == 6) && forall|i: int| 0 <= i < s.len() ==> is_hex(#[trigger] s[i]) {
        if s.len() == 3 {
            Some(rgb(hex_val(s[0]) * 17, hex_val(s[1]) * 17, hex_val(s[2]) * 17))
        } else {
            Some(
                rgb(
                    hex_val(s[0]) * 16 + hex_val(s[1]),
                    hex_val(s[2]) * 16 + hex_val(s[3]),
                    hex_val(s[4]) * 16 + hex_val(s[5]),
                ),
            )
        }
    } else {
        None
    }
}

/// A three-digit colour is its six-digit doubling: `#abc` is `#aabbcc`.
pub proof fn lemma_short_hex(a: char, b: char, c: char)
    requires
        is_hex(a),
        is_hex(b),
        is_hex(c),
    ensures
        spec_hex_color(seq![a, b, c]) is Some,
        spec_hex_color(seq![a, b, c]) == spec_hex_color(seq![a, a, b, b, c, c]),
{
    let s3 = seq![a, b, c];
    let s6 = seq![a, a, b, b, c, c];
    assert(forall|i: int| 0 <= i < s3.len() ==> is_hex(#[trigger] s3[i]));
    assert(forall|i: int| 0 <= i < s6.len() ==> is_hex(#[trigger] s6[i]));
}

/// In a six-digit colour each channel is read from its own two digits,
/// high digit first: two colours whose red digits agree have the same
/// red, and so on; one more in a channel's low digit is one more in the
/// channel, one more in its high digit is sixteen more. Every channel is
/// in 0..=255, and digits of equal value (`A` and `a`) give the same colour.
pub proof fn lemma_hex_channels(s: Seq<char>, t: Seq<char>, k: int)
    requires
        s.len() == 6,
        t.len() == 6,
        forall|i: int| 0 <= i < 6 ==> is_hex(#[trigger] s[i]),
        forall|i: int| 0 <= i < 6 ==> is_hex(#[trigger] t[i]),
        0 <= k < 3,
    ensures
        spec_hex_color(s) is Some,
        ({
            let x = spec_hex_color(s)->Some_0;
            let y = spec_hex_color(t)->Some_0;
            let ch = |c: Color, k: int| if k == 0 { c.r } else if k == 1 { c.g } else { c.b };
            &&& 0 <= ch(x, k) <= 255
            &&& s[2 * k] == t[2 * k] && s[2 * k + 1] == t[2 * k + 1] ==> ch(x, k) == ch(y, k)
            &&& hex_val(s[2 * k]) == hex_val(t[2 * k]) && hex_val(t[2 * k + 1]) == hex_val(s[2 * k + 1]) + 1
                ==> ch(y, k) == ch(x, k) + 1
            &&& hex_val(t[2 * k]) == hex_val(s[2 * k]) + 1 && hex_val(t[2 * k + 1]) == hex_val(s[2 * k + 1])
                ==> ch(y, k) == ch(x, k) + 16
            &&& (forall|i: int| 0 <= i < 6 ==> hex_val(#[trigger] s[i]) == hex_val(t[i])) ==> x == y
        }),
{
    assert(forall|i: int| 0 <= i < s.len() ==> is_hex(#[trigger] s[i]));
    assert(forall|i: int| 0 <= i < t.len() ==> is_hex(#[trigger] t[i]));
    assert(0 <= hex_val(s[0]) < 16 && 0 <= hex_val(s[1]) < 16);
    assert(0 <= hex_val(s[2]) < 16 && 0 <= hex_val(s[3]) < 16);
    assert(0 <= hex_val(s[4]) < 16 && 0 <= hex_val(s[5]) < 16);
    assert(0 <= hex_val(t[0]) < 16 && 0 <= hex_val(t[1]) < 16);
    assert(0 <= hex_val(t[2]) < 16 && 0 <= hex_val(t[3]) < 16);
    assert(0 <= hex_val(t[4]) < 16 && 0 <= hex_val(t[5]) < 16);
}

fn hex_digit_value(c: char) -> (r: Option<i32>)
    ensures
        r is Some <==> is_hex(c),
        r matches Some(v) ==> v == hex_val(c) && 0 <= v < 16,
{
    if '0' <= c && c <= '9' {
        Some((c as u32 - '0' as u32) as i32)
    } else if 'a' <= c && c <= 'f' {
        Some((c as u32 - 'a' as u32 + 10) as i32)
    } else if 'A' <= c && c <= 'F' {
        Some((c as u32 - 'A' as u32 + 10) as i32)
    } else {
        None
    }
}

pub fn parse_hex_color(s: &[char]) -> (r: Option<Color>)
    ensures
        r == spec_hex_color(s@),
        r matches Some(c) ==> color_wf(c),
{
    let len = s.len();
    if len != 3 && len != 6 {
        return None;
    }
    let mut v: Vec<i32> = Vec::new();
    let mut i: usize = 0;
    while i < len
        invariant
            len == s@.len(),
            i <= len,
            v@.len() == i,
            forall|j: int| 0 <= j < i ==> is_hex(#[trigger] s@[j]),
            forall|j: int| 0 <= j < i ==> v@[j] == hex_val(#[trigger] s@[j]) && 0 <= v@[j] < 16,
        decreases len - i,
    {
        match hex_digit_value(s[i]) {
            Some(d) => {
                let ghost before = v@;
                assert(d == hex_val(s@[i as int]) && is_hex(s@[i as int]));
                v.push(d);
                assert(v@ == before.push(d));
                assert(v@[i as int] == hex_val(s@[i as int]));
                assert(forall|j: int| 0 <= j < i ==> v@[j] == before[j]);
            },
            None => {
                return None;
            },
        }
        i += 1;
    }
    if len == 3 {
        Some(Color { kind: ColorKind::Rgb, idx: 0, r: v[0] * 17, g: v[1] * 17, b: v[2] * 17 })
    } else {
        Some(
            Color {
                kind: ColorKind::Rgb,
                idx: 0,
                r: v[0] * 16 + v[1],
                g: v[2] * 16 + v[3],
                b: v[4] * 16 + v[5],
            },
        )
    }
}

/// ASCII letters lowered, everything else kept.
pub open spec fn ascii_lower(s: Seq<char>) -> Seq<char> {
    s.map_values(|c: char| if 'A' <= c && c <= 'Z' { ((c as u32) + 32) as char } else { c })
}

fn to_lower(s: &[char]) -> (r: Vec<char>)
    ensures
        r@ == ascii_lower(s@),
{
    let mut r: Vec<char> = Vec::new();
    let mut i: usize = 0;
    while i < s.len()
        invariant
            i <= s@.len(),
            r@ == ascii_lower(s@.take(i as int)),
        decreases s@.len() - i,
    {
        let c = s[i];
        let l = if 'A' <= c && c <= 'Z' {
            ((c as u32) + 32) as u8 as char
        } else {
            c
        };
        r.push(l);
        assert(ascii_lower(s@.take(i + 1)) =~= ascii_lower(s@.take(i as int)).push(l));
        i += 1;
    }
    assert(s@.take(s@.len() as int) == s@);
    r
}

pub open spec fn is_digit(c: char) -> bool {
    '0' <= c && c <= '9'
}

/// Value of a run of decimal digits.
pub open spec fn digits_value(s: Seq<char>) -> nat
    decreases s.len(),
{
    if s.len() == 0 {
        0
    } else {
        (digits_value(s.drop_last()) * 10 + (s.last() as int - '0' as int)) as nat
    }
}

/// The palette index a colour name stands for.
pub open spec fn named_color(low: Seq<char>) -> Option<int> {
    if low == "black"@ {
        Some(0)
    } else if low == "red"@ {
        Some(1)
    } else if low == "green"@ {
        Some(2)
    } else if low == "yellow"@ {
        Some(3)
    } else if low == "blue"@ {
        Some(4)
    } else if low == "magenta"@ {
        Some(5)
    } else if low == "cyan"@ {
        Some(6)
    } else if low == "white"@ {
        Some(7)
    } else if low == "brightblack"@ {
        Some(8)
    } else if low == "brightred"@ {
        Some(9)
    } else if low == "brightgreen"@ {
        Some(10)
    } else if low == "brightyellow"@ {
        Some(11)
    } else if low == "brightblue"@ {
        Some(12)
    } else if low == "brightmagenta"@ {
        Some(13)
    } else if low == "brightcyan"@ {
        Some(14)
    } else if low == "brightwhite"@ {
        Some(15)
    } else if low == "grey"@ {
        Some(8)
    } else if low == "gray"@ {
        Some(8)
    } else {
        None
    }
}

fn lookup_named(low: &[char]) -> (r: Option<i32>)
    ensures
        r matches Some(n) ==> named_color(low@) == Some(n as int),
        r is None ==> named_color(low@) is None,
        r matches Some(n) ==> 0 <= n <= 15,
{
    if eq_str(low, "black") {
        Some(0)
    } else if eq_str(low, "red") {
        Some(1)
    } else if eq_str(low, "green") {
        Some(2)
    } else if eq_str(low, "yellow") {
        Some(3)
    } else if eq_str(low, "blue") {
        Some(4)
    } else if eq_str(low, "magenta") {
        Some(5)
    } else if eq_str(low, "cyan") {
        Some(6)
    } else if eq_str(low, "white") {
        Some(7)
    } else if eq_str(low, "brightblack") {
        Some(8)
    } else if eq_str(low, "brightred") {
        Some(9)
    } else if eq_str(low, "brightgreen") {
        Some(10)
    } else if eq_str(low, "brightyellow") {
        Some(11)
    } else if eq_str(low, "brightblue") {
        Some(12)
    } else if eq_str(low, "brightmagenta") {
        Some(13)
    } else if eq_str(low, "brightcyan") {
        Some(14)
    } else if eq_str(low, "brightwhite") {
        Some(15)
    } else if eq_str(low, "grey") {
        Some(8)
    } else if eq_str(low, "gray") {
        Some(8)
    } else {
        None
    }
}

/// A colour as a theme file writes it: `#rrggbb` or `#rgb`, a palette
/// index 0-255, a colour name (any letter case), or `default` / `none` /
/// `-` for the terminal's own colour.
pub open spec fn spec_parse_color(s: Seq<char>) -> Option<Color> {
    if has_prefix(s, "#"@) {
        spec_hex_color(s.skip("#"@.len() as int))
    } else {
        let low = ascii_lower(s);
        if low == "default"@ || low == "none"@ || low == "-"@ {
            Some(no_color())
        } else if low.len() > 0 && is_digit(low[0]) {
            if (forall|i: int| 0 <= i < low.len() ==> is_digit(#[trigger] low[i])) && digits_value(
                low,
            ) <= 255 {
                Some(indexed(digits_value(low) as int))
            } else {
                None
            }
        } else {
            match named_color(low) {
                Some(n) => Some(indexed(n)),
                None => None,
            }
        }
    }
}

/// A palette index written in decimal, when it is one in 0..=255.
fn parse_index(low: &[char]) -> (r: Option<i32>)
    ensures
        r is Some <==> ((forall|i: int| 0 <= i < low@.len() ==> is_digit(#[trigger] low@[i]))
            && digits_value(low@) <= 255),
        r matches Some(n) ==> n == digits_value(low@),
{
    let mut v: i32 = 0;
    let mut i: usize = 0;
    while i < low.len()
        invariant
            i <= low@.len(),
            forall|j: int| 0 <= j < i ==> is_digit(#[trigger] low@[j]),
            v as int == if digits_value(low@.take(i as int)) < 256 {
                digits_value(low@.take(i as int)) as int
            } else {
                256
            },
        decreases low@.len() - i,
    {
        let c = low[i];
        if !('0' <= c && c <= '9') {
            return None;
        }
        assert(low@.take(i + 1).drop_last() == low@.take(i as int));
        let d = (c as u32 - '0' as u32) as i32;
        let next = v * 10 + d;
        v = if next > 256 { 256 } else { next };
        i += 1;
    }
    assert(low@.take(low@.len() as int) == low@);
    if v > 255 {
        None
    } else {
        Some(v)
    }
}

pub fn parse_color(s: &[char]) -> (r: Option<Color>)
    ensures
        r == spec_parse_color(s@),
        r matches Some(c) ==> color_wf(c),
{
    if let Some(hex) = strip_prefix_str(s, "#") {
        return parse_hex_color(hex.as_slice());
    }
    let low = to_lower(s);
    if eq_str(low.as_slice(), "default") || eq_str(low.as_slice(), "none") || eq_str(
        low.as_slice(),
        "-",
    ) {
        return Some(Color { kind: ColorKind::Terminal, idx: 0, r: 0, g: 0, b: 0 });
    }
    if low.len() > 0 && '0' <= low[0] && low[0] <= '9' {
        return match parse_index(low.as_slice()) {
            Some(n) => Some(Color { kind: ColorKind::Idx, idx: n, r: 0, g: 0, b: 0 }),
            None => None,
        };
    }
    match lookup_named(low.as_slice()) {
        Some(n) => Some(Color { kind: ColorKind::Idx, idx: n, r: 0, g: 0, b: 0 }),
        None => None,
    }
}

/// The attribute bit an attribute word names.
pub open spec fn attr_bit(s: Seq<char>) -> Option<u32> {
    if s == "bold"@ {
        Some(ATTR_BOLD)
    } else if s == "dim"@ {
        Some(ATTR_DIM)
    } else if s == "italic"@ {
        Some(ATTR_ITALIC)
    } else if s == "underline"@ {
        Some(ATTR_UNDER)
    } else if s == "reverse"@ {
        Some(ATTR_REVERSE)
    } else if s == "swap"@ {
        Some(ATTR_SWAP)
    } else if s == "none"@ {
        Some(ATTR_CLEAR)
    } else {
        None
    }
}

/// Add the attribute `s` names to `attrs`; false when `s` names none.
pub fn parse_attr(s: &[char], attrs: &mut u32) -> (ok: bool)
    ensures
        ok == attr_bit(s@) is Some,
        ok ==> *final(attrs) == *old(attrs) | attr_bit(s@)->0,
        !ok ==> *final(attrs) == *old(attrs),
{
    let bit = if eq_str(s, "bold") {
        ATTR_BOLD
    } else if eq_str(s, "dim") {
        ATTR_DIM
    } else if eq_str(s, "italic") {
        ATTR_ITALIC
    } else if eq_str(s, "underline") {
        ATTR_UNDER
    } else if eq_str(s, "reverse") {
        ATTR_REVERSE
    } else if eq_str(s, "swap") {
        ATTR_SWAP
    } else if eq_str(s, "none") {
        ATTR_CLEAR
    } else {
        return false;
    };
    *attrs = *attrs | bit;
    true
}

// ------------------------------------------------------------ slot names

/// Table position of a slot name; `title.style` avoids colliding with the
/// `title` text directive.
pub open spec fn slot_index(name: Seq<char>) -> Option<int> {
    if name == "frame"@ {
        Some(0)
    } else if name == "title.style"@ {
        Some(1)
    } else if name == "status"@ {
        Some(2)
    } else if name == "status.mode"@ {
        Some(3)
    } else if name == "status.inv"@ {
        Some(4)
    } else if name == "status.mem"@ {
        Some(5)
    } else if name == "display"@ {
        Some(6)
    } else if name == "display.error"@ {
        Some(7)
    } else if name == "aux"@ {
        Some(8)
    } else if name == "hint"@ {
        Some(9)
    } else if name == "help.title"@ {
        Some(10)
    } else if name == "help.text"@ {
        Some(11)
    } else if name == "key.digit"@ {
        Some(12)
    } else if name == "key.hexdigit"@ {
        Some(13)
    } else if name == "key.operator"@ {
        Some(14)
    } else if name == "key.sci"@ {
        Some(15)
    } else if name == "key.bitwise"@ {
        Some(16)
    } else if name == "key.mode"@ {
        Some(17)
    } else if name == "key.memory"@ {
        Some(18)
    } else if name == "key.edit"@ {
        Some(19)
    } else if name == "key.equals"@ {
        Some(20)
    } else if name == "key.paren"@ {
        Some(21)
    } else {
        None
    }
}

pub fn lookup_slot(name: &[char]) -> (r: Option<usize>)
    ensures
        r matches Some(i) ==> slot_index(name@) == Some(i as int),
        r is None ==> slot_index(name@) is None,
        r matches Some(i) ==> i < 22,
{
    if eq_str(name, "frame") {
        Some(0)
    } else if eq_str(name, "title.style") {
        Some(1)
    } else if eq_str(name, "status") {
        Some(2)
    } else if eq_str(name, "status.mode") {
        Some(3)
    } else if eq_str(name, "status.inv") {
        Some(4)
    } else if eq_str(name, "status.mem") {
        Some(5)
    } else if eq_str(name, "display") {
        Some(6)
    } else if eq_str(name, "display.error") {
        Some(7)
    } else if eq_str(name, "aux") {
        Some(8)
    } else if eq_str(name, "hint") {
        Some(9)
    } else if eq_str(name, "help.title") {
        Some(10)
    } else if eq_str(name, "help.text") {
        Some(11)
    } else if eq_str(name, "key.digit") {
        Some(12)
    } else if eq_str(name, "key.hexdigit") {
        Some(13)
    } else if eq_str(name, "key.operator") {
        Some(14)
    } else if eq_str(name, "key.sci") {
        Some(15)
    } else if eq_str(name, "key.bitwise") {
        Some(16)
    } else if eq_str(name, "key.mode") {
        Some(17)
    } else if eq_str(name, "key.memory") {
        Some(18)
    } else if eq_str(name, "key.edit") {
        Some(19)
    } else if eq_str(name, "key.equals") {
        Some(20)
    } else if eq_str(name, "key.paren") {
        Some(21)
    } else {
        None
    }
}

/// A slot name with its state suffix (`.focus`, `.active`, `.disabled`)
/// split off, as long as something is left in front of it.
pub open spec fn spec_split_state(name: Seq<char>) -> (Seq<char>, int) {
    if has_suffix(name, ".focus"@) && name.len() > ".focus"@.len() {
        (name.take(name.len() - ".focus"@.len()), 1)
    } else if has_suffix(name, ".active"@) && name.len() > ".active"@.len() {
        (name.take(name.len() - ".active"@.len()), 2)
    } else if has_suffix(name, ".disabled"@) && name.len() > ".disabled"@.len() {
        (name.take(name.len() - ".disabled"@.len()), 3)
    } else {
        (name, 0)
    }
}

fn strip_state_suffix(name: &[char], suffix: &str) -> (r: Option<Vec<char>>)
    ensures
        r is Some <==> (has_suffix(name@, suffix@) && name@.len() > suffix@.len()),
        r matches Some(t) ==> t@ == name@.take(name@.len() - suffix@.len()),
{
    let p = str_chars(suffix);
    if p.len() >= name.len() {
        return None;
    }
    let tail = sub_chars(name, name.len() - p.len(), name.len());
    if crate::text::eq_chars(tail.as_slice(), p.as_slice()) {
        Some(sub_chars(name, 0, name.len() - p.len()))
    } else {
        None
    }
}

/// Strip a trailing state suffix, returning the state (by table position)
/// it named.
pub fn split_state(name: &[char]) -> (r: (Vec<char>, usize))
    ensures
        (r.0@, r.1 as int) == spec_split_state(name@),
{
    if let Some(t) = strip_state_suffix(name, ".focus") {
        return (t, 1);
    }
    if let Some(t) = strip_state_suffix(name, ".active") {
        return (t, 2);
    }
    if let Some(t) = strip_state_suffix(name, ".disabled") {
        return (t, 3);
    }
    (sub_chars(name, 0, name.len()), 0)
}


// ------------------------------------------------------------ comments

/// Whether the last UTF-8 byte of `c`, read as a character on its own, is
/// whitespace: the test the line scanner applies to the byte before a `#`.
pub open spec fn last_byte_ws(c: char) -> bool {
    let u = c as u32;
    if u < 0x80 {
        (9 <= u <= 13) || u == 32
    } else {
        u % 64 == 5 || u % 64 == 32
    }
}

/// A `#` at `pos` starts a comment: first on the line or after whitespace.
/// Inside a token it introduces a colour, as in `fg=#7aa2f7`.
pub open spec fn comment_at(line: Seq<char>, pos: int) -> bool {
    line[pos] == '#' && (pos == 0 || last_byte_ws(line[pos - 1]))
}

/// Where the first comment starts at or after `i`, or the line's length.
pub open spec fn comment_from(line: Seq<char>, i: int) -> int
    decreases line.len() - i,
{
    if i >= line.len() {
        line.len() as int
    } else if i >= 0 && comment_at(line, i) {
        i
    } else {
        comment_from(line, i + 1)
    }
}

/// The line with its comment removed.
pub open spec fn code_part(line: Seq<char>) -> Seq<char> {
    line.take(comment_from(line, 0))
}

fn is_last_byte_ws(c: char) -> (b: bool)
    ensures
        b == last_byte_ws(c),
{
    let u = c as u32;
    if u < 0x80 {
        (9 <= u && u <= 13) || u == 32
    } else {
        u % 64 == 5 || u % 64 == 32
    }
}

pub fn strip_comment(line: &[char]) -> (r: Vec<char>)
    ensures
        r@ == code_part(line@),
{
    let mut i: usize = 0;
    while i < line.len()
        invariant
            i <= line@.len(),
            comment_from(line@, 0) == comment_from(line@, i as int),
        decreases line@.len() - i,
    {
        if line[i] == '#' && (i == 0 || is_last_byte_ws(line[i - 1])) {
            return sub_chars(line, 0, i);
        }
        i += 1;
    }
    sub_chars(line, 0, line.len())
}

// ------------------------------------------------------------ model

/// The glyphs a theme sets: frame corners and lines, the brackets drawn
/// around keys, and the title.
pub struct ThemeChrome {
    pub tl: String,
    pub tr: String,
    pub bl: String,
    pub br: String,
    pub h: String,
    pub v: String,
    pub key_left: String,
    pub key_right: String,
    pub title: String,
}

#[verifier::ext_equal]
pub struct ChromeView {
    pub tl: Seq<char>,
    pub tr: Seq<char>,
    pub bl: Seq<char>,
    pub br: Seq<char>,
    pub h: Seq<char>,
    pub v: Seq<char>,
    pub key_left: Seq<char>,
    pub key_right: Seq<char>,
    pub title: Seq<char>,
}

impl View for ThemeChrome {
    type V = ChromeView;

    open spec fn view(&self) -> ChromeView {
        ChromeView {
            tl: self.tl@,
            tr: self.tr@,
            bl: self.bl@,
            br: self.br@,
            h: self.h@,
            v: self.v@,
            key_left: self.key_left@,
            key_right: self.key_right@,
            title: self.title@,
        }
    }
}

/// Everything a theme file can set. `variant` and `have` are indexed by
/// slot * 4 + state; `xform` by state.
#[verifier::ext_equal]
pub struct ThemeModel {
    pub base: Seq<Style>,
    pub variant: Seq<Style>,
    pub have: Seq<bool>,
    pub xform: Seq<Style>,
    pub name: Seq<char>,
    pub chrome: ChromeView,
}

pub open spec fn model_wf(m: ThemeModel) -> bool {
    &&& m.base.len() == 22
    &&& m.variant.len() == 88
    &&& m.have.len() == 88
    &&& m.xform.len() == 4
    &&& forall|i: int| 0 <= i < 22 ==> style_wf(#[trigger] m.base[i])
    &&& forall|k: int| 0 <= k < 88 ==> style_wf(#[trigger] m.variant[k])
    &&& forall|j: int| 0 <= j < 4 ==> style_wf(#[trigger] m.xform[j])
}

/// Frame glyphs of a border kind: corners tl, tr, bl, br, then the
/// horizontal and vertical lines. Unknown kinds are `rounded`.
pub open spec fn border_glyphs(kind: Seq<char>) -> Seq<Seq<char>> {
    if kind == "square"@ {
        seq!["\u{250c}"@, "\u{2510}"@, "\u{2514}"@, "\u{2518}"@, "\u{2500}"@, "\u{2502}"@]
    } else if kind == "heavy"@ {
        seq!["\u{250f}"@, "\u{2513}"@, "\u{2517}"@, "\u{251b}"@, "\u{2501}"@, "\u{2503}"@]
    } else if kind == "double"@ {
        seq!["\u{2554}"@, "\u{2557}"@, "\u{255a}"@, "\u{255d}"@, "\u{2550}"@, "\u{2551}"@]
    } else if kind == "ascii"@ {
        seq!["+"@, "+"@, "+"@, "+"@, "-"@, "|"@]
    } else if kind == "none"@ {
        seq![" "@, " "@, " "@, " "@, " "@, " "@]
    } else {
        seq!["\u{256d}"@, "\u{256e}"@, "\u{2570}"@, "\u{256f}"@, "\u{2500}"@, "\u{2502}"@]
    }
}

pub open spec fn with_border(c: ChromeView, kind: Seq<char>) -> ChromeView {
    let g = border_glyphs(kind);
    ChromeView { tl: g[0], tr: g[1], bl: g[2], br: g[3], h: g[4], v: g[5], ..c }
}

fn set_glyphs(chrome: &mut ThemeChrome, tl: &str, tr: &str, bl: &str, br: &str, h: &str, v: &str)
    ensures
        final(chrome)@ == (ChromeView {
            tl: tl@,
            tr: tr@,
            bl: bl@,
            br: br@,
            h: h@,
            v: v@,
            ..old(chrome)@
        }),
{
    chrome.tl = string_of(tl);
    chrome.tr = string_of(tr);
    chrome.bl = string_of(bl);
    chrome.br = string_of(br);
    chrome.h = string_of(h);
    chrome.v = string_of(v);
}

/// Set the frame glyphs for a border kind.
pub fn set_border(chrome: &mut ThemeChrome, kind: &[char])
    ensures
        final(chrome)@ == with_border(old(chrome)@, kind@),
{
    if eq_str(kind, "square") {
        set_glyphs(chrome, "\u{250c}", "\u{2510}", "\u{2514}", "\u{2518}", "\u{2500}", "\u{2502}");
    } else if eq_str(kind, "heavy") {
        set_glyphs(chrome, "\u{250f}", "\u{2513}", "\u{2517}", "\u{251b}", "\u{2501}", "\u{2503}");
    } else if eq_str(kind, "double") {
        set_glyphs(chrome, "\u{2554}", "\u{2557}", "\u{255a}", "\u{255d}", "\u{2550}", "\u{2551}");
    } else if eq_str(kind, "ascii") {
        set_glyphs(chrome, "+", "+", "+", "+", "-", "|");
    } else if eq_str(kind, "none") {
        set_glyphs(chrome, " ", " ", " ", " ", " ", " ");
    } else {
        set_glyphs(chrome, "\u{256d}", "\u{256e}", "\u{2570}", "\u{256f}", "\u{2500}", "\u{2502}");
    }
}

// ------------------------------------------------------------ lines

/// Why a theme line was refused.
pub enum ThemeError {
    BadValue(Seq<char>),
    StateNeedsSuffix,
    UnknownSlot(Seq<char>),
}

/// The style a word adds to `st`: `fg=<colour>`, `bg=<colour>` or an
/// attribute; `None` when the word is none of these.
pub open spec fn apply_word(st: Style, w: Seq<char>) -> Option<Style> {
    if has_prefix(w, "fg="@) {
        match spec_parse_color(w.skip("fg="@.len() as int)) {
            Some(c) => Some(Style { fg: c, set: st.set | SET_FG, ..st }),
            None => None,
        }
    } else if has_prefix(w, "bg="@) {
        match spec_parse_color(w.skip("bg="@.len() as int)) {
            Some(c) => Some(Style { bg: c, set: st.set | SET_BG, ..st }),
            None => None,
        }
    } else {
        match attr_bit(w) {
            Some(bit) => Some(Style { attrs: st.attrs | bit, ..st }),
            None => None,
        }
    }
}

/// The style the words of a line describe, or the first bad word.
pub open spec fn parse_style(ws: Seq<Seq<char>>) -> Result<Style, Seq<char>>
    decreases ws.len(),
{
    if ws.len() == 0 {
        Ok(empty_style())
    } else {
        match parse_style(ws.drop_last()) {
            Err(e) => Err(e),
            Ok(st) => match apply_word(st, ws.last()) {
                Some(s2) => Ok(s2),
                None => Err(ws.last()),
            },
        }
    }
}

/// Lay `s` over slot `i` in state `j` (state 0 is the base style).
pub open spec fn apply_slot(m: ThemeModel, i: int, j: int, s: Style) -> ThemeModel {
    if j == 0 {
        ThemeModel { base: m.base.update(i, merged(m.base[i], s)), ..m }
    } else {
        ThemeModel {
            variant: m.variant.update(i * 4 + j, merged(m.variant[i * 4 + j], s)),
            have: m.have.update(i * 4 + j, true),
            ..m
        }
    }
}

/// Slots 12..22 are the key categories that `key` sets at once.
pub open spec fn is_key_slot(i: int) -> bool {
    12 <= i < 22
}

/// Lay `s` over every key category in state `j`.
pub open spec fn apply_keys(m: ThemeModel, j: int, s: Style) -> ThemeModel {
    if j == 0 {
        ThemeModel {
            base: Seq::new(
                22,
                |i: int|
                    if is_key_slot(i) {
                        merged(m.base[i], s)
                    } else {
                        m.base[i]
                    },
            ),
            ..m
        }
    } else {
        ThemeModel {
            variant: Seq::new(
                88,
                |k: int|
                    if is_key_slot(k / 4) && k % 4 == j {
                        merged(m.variant[k], s)
                    } else {
                        m.variant[k]
                    },
            ),
            have: Seq::new(
                88,
                |k: int|
                    if is_key_slot(k / 4) && k % 4 == j {
                        true
                    } else {
                        m.have[k]
                    },
            ),
            ..m
        }
    }
}

/// The effect of one theme line.
pub open spec fn apply_line(m: ThemeModel, raw: Seq<char>) -> Result<ThemeModel, ThemeError> {
    let (tok, rest) = split_first(code_part(raw));
    if tok.len() == 0 {
        Ok(m)
    } else if tok == "name"@ {
        Ok(ThemeModel { name: trim_end_sep(rest), ..m })
    } else if tok == "title"@ {
        Ok(ThemeModel { chrome: ChromeView { title: trim_end_sep(rest), ..m.chrome }, ..m })
    } else if tok == "border"@ {
        let kind = match first_word(rest) {
            Some(w) => w,
            None => "rounded"@,
        };
        Ok(ThemeModel { chrome: with_border(m.chrome, kind), ..m })
    } else if tok == "brackets"@ {
        let ws = words(rest);
        if ws.len() == 0 || ws[0] == "none"@ {
            Ok(
                ThemeModel {
                    chrome: ChromeView { key_left: Seq::empty(), key_right: Seq::empty(), ..m.chrome },
                    ..m
                },
            )
        } else {
            Ok(
                ThemeModel {
                    chrome: ChromeView {
                        key_left: ws[0],
                        key_right: if ws.len() > 1 {
                            ws[1]
                        } else {
                            ws[0]
                        },
                        ..m.chrome
                    },
                    ..m
                },
            )
        }
    } else {
        let (slot, j) = spec_split_state(tok);
        match parse_style(words(rest)) {
            Err(w) => Err(ThemeError::BadValue(w)),
            Ok(s) => if slot == "state"@ {
                if j == 0 {
                    Err(ThemeError::StateNeedsSuffix)
                } else {
                    Ok(ThemeModel { xform: m.xform.update(j, merged(m.xform[j], s)), ..m })
                }
            } else if slot == "key"@ {
                Ok(apply_keys(m, j, s))
            } else {
                match slot_index(slot) {
                    None => Err(ThemeError::UnknownSlot(slot)),
                    Some(i) => Ok(apply_slot(m, i, j, s)),
                }
            },
        }
    }
}

/// The theme after the lines, in order, up to the first refused one; and
/// that line's number (counting from 1) with the reason.
pub open spec fn parse_lines(m: ThemeModel, lines: Seq<Seq<char>>) -> (
    ThemeModel,
    Option<(int, ThemeError)>,
)
    decreases lines.len(),
{
    if lines.len() == 0 {
        (m, None)
    } else {
        let (m1, e) = parse_lines(m, lines.drop_last());
        if e is Some {
            (m1, e)
        } else {
            match apply_line(m1, lines.last()) {
                Ok(m2) => (m2, None),
                Err(err) => (m1, Some((lines.len() as int, err))),
            }
        }
    }
}

/// The theme after a whole text.
pub open spec fn parse_text(m: ThemeModel, text: Seq<char>) -> (
    ThemeModel,
    Option<(int, ThemeError)>,
) {
    parse_lines(m, split_on(text, '\n'))
}

/// A word a style line accepts: `fg=` or `bg=` and a colour, or an
/// attribute.
pub open spec fn word_ok(w: Seq<char>) -> bool {
    if has_prefix(w, "fg="@) {
        spec_parse_color(w.skip("fg="@.len() as int)) is Some
    } else if has_prefix(w, "bg="@) {
        spec_parse_color(w.skip("bg="@.len() as int)) is Some
    } else {
        attr_bit(w) is Some
    }
}

/// A line the reader refuses: its first token (comment cut off) is none of
/// `name`, `title`, `border` and `brackets`, and either a later word is
/// neither a colour setting nor an attribute, or the token is a bare
/// `state`, or the token without its state suffix is none of `key`,
/// `state` and the slot names.
pub open spec fn line_refused(raw: Seq<char>) -> bool {
    let (tok, rest) = split_first(code_part(raw));
    let (slot, j) = spec_split_state(tok);
    &&& tok.len() > 0
    &&& tok != "name"@ && tok != "title"@ && tok != "border"@ && tok != "brackets"@
    &&& {
        ||| exists|k: int| 0 <= k < words(rest).len() && !word_ok(#[trigger] words(rest)[k])
        ||| slot == "state"@ && j == 0
        ||| slot != "state"@ && slot != "key"@ && slot_index(slot) is None
    }
}

proof fn lemma_apply_word_ok(st: Style, w: Seq<char>)
    ensures
        apply_word(st, w) is Some <==> word_ok(w),
{
}

proof fn lemma_parse_style_err(ws: Seq<Seq<char>>)
    ensures
        parse_style(ws) is Err <==> exists|k: int| 0 <= k < ws.len() && !word_ok(#[trigger] ws[k]),
    decreases ws.len(),
{
    if ws.len() > 0 {
        let w0 = ws.drop_last();
        lemma_parse_style_err(w0);
        if parse_style(w0) is Err {
            let k = choose|k: int| 0 <= k < w0.len() && !word_ok(#[trigger] w0[k]);
            assert(ws[k] == w0[k]);
        } else {
            lemma_apply_word_ok(parse_style(w0)->Ok_0, ws.last());
            if !word_ok(ws.last()) {
                assert(!word_ok(ws[ws.len() - 1]));
            }
            if exists|k: int| 0 <= k < ws.len() && !word_ok(#[trigger] ws[k]) {
                let k = choose|k: int| 0 <= k < ws.len() && !word_ok(#[trigger] ws[k]);
                if k < ws.len() - 1 {
                    assert(w0[k] == ws[k]);
                }
            }
        }
    }
}

pub(crate) proof fn lemma_apply_line_refused(m: ThemeModel, raw: Seq<char>)
    ensures
        apply_line(m, raw) is Err <==> line_refused(raw),
{
    let (tok, rest) = split_first(code_part(raw));
    lemma_parse_style_err(words(rest));
}

/// Which lines are refused: reading stops at the first line that
/// `line_refused` describes and reports its number (from 1) and only
/// then; every line of an accepted text is one the reader accepts. The
/// message names the origin and that line number first.
pub proof fn lemma_refused_lines(m: ThemeModel, text: Seq<char>, origin: Seq<char>)
    ensures
        ({
            let ls = split_on(text, '\n');
            &&& parse_text(m, text).1 is None <==> forall|j: int|
                0 <= j < ls.len() ==> !line_refused(#[trigger] ls[j])
            &&& parse_text(m, text).1 matches Some((n, e)) ==> {
                &&& 1 <= n <= ls.len()
                &&& line_refused(ls[n - 1])
                &&& forall|j: int| 0 <= j < n - 1 ==> !line_refused(#[trigger] ls[j])
                &&& has_prefix(
                    refusal_text(origin, m, text),
                    origin + ":"@ + dec_chars(n as nat) + ": "@,
                )
            }
        }),
{
    let ls = split_on(text, '\n');
    lemma_parse_lines_refused_at(m, ls);
    if let Some((n, e)) = parse_text(m, text).1 {
        reveal_strlit(":");
        reveal_strlit(": ");
        reveal_strlit(": bad value '");
        reveal_strlit(": state needs .focus, .active or .disabled");
        reveal_strlit(": unknown slot '");
        let t = refusal_text(origin, m, text);
        let head = origin + ":"@ + dec_chars(n as nat) + ": "@;
        assert(t.take(head.len() as int) =~= head);
    }
}

pub(crate) proof fn lemma_parse_lines_refused_at(m: ThemeModel, ls: Seq<Seq<char>>)
    ensures
        parse_lines(m, ls).1 is None <==> forall|j: int|
            0 <= j < ls.len() ==> !line_refused(#[trigger] ls[j]),
        parse_lines(m, ls).1 matches Some((n, e)) ==> {
            &&& 1 <= n <= ls.len()
            &&& line_refused(ls[n - 1])
            &&& forall|j: int| 0 <= j < n - 1 ==> !line_refused(#[trigger] ls[j])
        },
    decreases ls.len(),
{
    if ls.len() > 0 {
        let l0 = ls.drop_last();
        lemma_parse_lines_refused_at(m, l0);
        let (m1, e) = parse_lines(m, l0);
        lemma_apply_line_refused(m1, ls.last());
        assert forall|j: int| 0 <= j < l0.len() implies l0[j] == ls[j] by {}
        if e is None {
            if forall|j: int| 0 <= j < ls.len() ==> !line_refused(#[trigger] ls[j]) {
                assert(!line_refused(ls[ls.len() - 1]));
            }
        } else {
            let k = choose|k: int| 0 <= k < l0.len() && line_refused(#[trigger] l0[k]);
            assert(line_refused(ls[k]));
        }
    }
}

/// The message for the first line of `text` that is refused, if any.
pub open spec fn refusal_text(origin: Seq<char>, m: ThemeModel, text: Seq<char>) -> Seq<char> {
    match parse_text(m, text).1 {
        Some((n, e)) => error_text(origin, n, e),
        None => Seq::empty(),
    }
}

/// The message for a refused line: `<origin>:<line>: <reason>`.
pub open spec fn error_text(origin: Seq<char>, lineno: int, e: ThemeError) -> Seq<char> {
    origin + ":"@ + dec_chars(lineno as nat) + match e {
        ThemeError::BadValue(w) => ": bad value '"@ + w + "'"@,
        ThemeError::StateNeedsSuffix => ": state needs .focus, .active or .disabled"@,
        ThemeError::UnknownSlot(s) => ": unknown slot '"@ + s + "'"@,
    }
}

enum LineError {
    BadValue(Vec<char>),
    StateNeedsSuffix,
    UnknownSlot(Vec<char>),
}

impl LineError {
    spec fn view(&self) -> ThemeError {
        match self {
            LineError::BadValue(w) => ThemeError::BadValue(w@),
            LineError::StateNeedsSuffix => ThemeError::StateNeedsSuffix,
            LineError::UnknownSlot(s) => ThemeError::UnknownSlot(s@),
        }
    }
}

fn apply_word_exec(st: &mut Style, w: &[char]) -> (ok: bool)
    requires
        style_wf(*old(st)),
    ensures
        ok == apply_word(*old(st), w@) is Some,
        ok ==> *final(st) == apply_word(*old(st), w@)->0,
        style_wf(*final(st)),
{
    if let Some(c) = strip_prefix_str(w, "fg=") {
        match parse_color(c.as_slice()) {
            Some(col) => {
                st.fg = col;
                st.set = st.set | SET_FG;
                return true;
            },
            None => {
                return false;
            },
        }
    }
    if let Some(c) = strip_prefix_str(w, "bg=") {
        match parse_color(c.as_slice()) {
            Some(col) => {
                st.bg = col;
                st.set = st.set | SET_BG;
                return true;
            },
            None => {
                return false;
            },
        }
    }
    parse_attr(w, &mut st.attrs)
}

fn parse_style_exec(ws: &Vec<Vec<char>>) -> (r: Result<Style, Vec<char>>)
    ensures
        match r {
            Ok(s) => parse_style(ws.deep_view()) == Ok::<Style, Seq<char>>(s) && style_wf(s),
            Err(w) => parse_style(ws.deep_view()) == Err::<Style, Seq<char>>(w@),
        },
{
    let ghost dv = ws.deep_view();
    let mut st = style_empty();
    let mut i: usize = 0;
    while i < ws.len()
        invariant
            dv == ws.deep_view(),
            dv.len() == ws@.len(),
            i <= ws@.len(),
            parse_style(dv.take(i as int)) == Ok::<Style, Seq<char>>(st),
            style_wf(st),
        decreases ws@.len() - i,
    {
        assert(dv.take(i + 1).drop_last() == dv.take(i as int));
        assert(dv[i as int] == ws@[i as int]@);
        if !apply_word_exec(&mut st, ws[i].as_slice()) {
            let bad = sub_chars(ws[i].as_slice(), 0, ws[i].len());
            assert(parse_style(dv.take(i + 1)) == Err::<Style, Seq<char>>(bad@));
            proof {
                lemma_parse_style_err_sticks(dv, i as int + 1, bad@);
            }
            return Err(bad);
        }
        i += 1;
    }
    assert(dv.take(dv.len() as int) == dv);
    Ok(st)
}

proof fn lemma_parse_style_err_sticks(ws: Seq<Seq<char>>, n: int, w: Seq<char>)
    requires
        0 <= n <= ws.len(),
        parse_style(ws.take(n)) == Err::<Style, Seq<char>>(w),
    ensures
        parse_style(ws) == Err::<Style, Seq<char>>(w),
    decreases ws.len() - n,
{
    if n < ws.len() {
        assert(ws.take(n + 1).drop_last() == ws.take(n));
        lemma_parse_style_err_sticks(ws, n + 1, w);
    } else {
        assert(ws.take(n) == ws);
    }
}


proof fn lemma_parse_lines_refused(
    m0: ThemeModel,
    ls: Seq<Seq<char>>,
    i: int,
    before: ThemeModel,
    err: ThemeError,
)
    requires
        0 <= i < ls.len(),
        parse_lines(m0, ls.take(i)) == (before, None::<(int, ThemeError)>),
        apply_line(before, ls[i]) == Err::<ThemeModel, ThemeError>(err),
    ensures
        parse_lines(m0, ls) == (before, Some((i + 1, err))),
{
    assert(ls.take(i + 1).drop_last() == ls.take(i));
    assert(ls.take(i + 1).last() == ls[i]);
    let res = (before, Some((i + 1, err)));
    assert(parse_lines(m0, ls.take(i + 1)) == res);
    lemma_parse_lines_err_sticks(m0, ls, i + 1, res);
}

proof fn lemma_parse_lines_err_sticks(
    m: ThemeModel,
    ls: Seq<Seq<char>>,
    n: int,
    r: (ThemeModel, Option<(int, ThemeError)>),
)
    requires
        0 <= n <= ls.len(),
        parse_lines(m, ls.take(n)) == r,
        r.1 is Some,
    ensures
        parse_lines(m, ls) == r,
    decreases ls.len() - n,
{
    if n < ls.len() {
        assert(ls.take(n + 1).drop_last() == ls.take(n));
        lemma_parse_lines_err_sticks(m, ls, n + 1, r);
    } else {
        assert(ls.take(n) == ls);
    }
}

// ------------------------------------------------------------ resolution

/// The style slot `i` is painted with in state `j`: the base style, laid
/// under an explicit state variant when the theme has one, else derived
/// from the base by the global state transform. A `swap` transform
/// exchanges the colours when both are set, and asks for reverse video
/// otherwise.
pub open spec fn resolve(m: ThemeModel, i: int, j: int) -> Style {
    let out = m.base[i];
    if j == 0 {
        out
    } else if m.have[i * 4 + j] {
        merged(out, m.variant[i * 4 + j])
    } else {
        let x = m.xform[j];
        let out1 = if x.attrs & ATTR_SWAP != 0 {
            if out.set & SET_FG != 0 && out.set & SET_BG != 0 {
                Style { fg: out.bg, bg: out.fg, attrs: out.attrs | ATTR_SWAPPED, set: out.set }
            } else {
                Style { attrs: out.attrs | ATTR_REVERSE, ..out }
            }
        } else {
            out
        };
        let out2 = merged(out1, x);
        Style { attrs: out2.attrs & !(ATTR_SWAP | ATTR_CLEAR), ..out2 }
    }
}

/// How a state is painted: `Normal` is the base style; a state with lines
/// of its own is the base under those; any other state is the base under
/// the state's transform, where a `swap` exchanges foreground and
/// background when the base sets both (the transform's own colours still
/// win) and otherwise shows as reverse video.
pub proof fn lemma_state_styles(m: ThemeModel, i: int, j: int)
    requires
        0 <= i < 22,
        0 <= j < 4,
    ensures
        j == 0 ==> resolve(m, i, j) == m.base[i],
        j != 0 && m.have[i * 4 + j] ==> resolve(m, i, j) == merged(m.base[i], m.variant[i * 4 + j]),
        ({
            let b = m.base[i];
            let x = m.xform[j];
            (j != 0 && !m.have[i * 4 + j] && x.attrs & ATTR_SWAP != 0 && b.set & SET_FG != 0
                && b.set & SET_BG != 0) ==> {
                &&& resolve(m, i, j).fg == (if x.set & SET_FG != 0 {
                    x.fg
                } else {
                    b.bg
                })
                &&& resolve(m, i, j).bg == (if x.set & SET_BG != 0 {
                    x.bg
                } else {
                    b.fg
                })
            }
        }),
        ({
            let b = m.base[i];
            let x = m.xform[j];
            (j != 0 && !m.have[i * 4 + j] && x.attrs & ATTR_SWAP != 0 && x.attrs & ATTR_CLEAR == 0
                && !(b.set & SET_FG != 0 && b.set & SET_BG != 0)) ==> resolve(m, i, j).attrs
                & ATTR_REVERSE != 0
        }),
{
    let b = m.base[i];
    let x = m.xform[j];
    let (ba, xa) = (b.attrs, x.attrs);
    assert((((ba | 0x10u32) | xa) & !(0x20u32 | 0x40u32)) & 0x10u32 != 0) by (bit_vector);
}

/// Reading a theme text and then another is reading the two joined by a
/// newline: a user theme is an override laid over what was read before.
/// A refusal in the second text is reported at its line counted on from
/// the first text's lines.
pub proof fn lemma_texts_compose(m: ThemeModel, a: Seq<char>, b: Seq<char>)
    requires
        parse_text(m, a).1 is None,
    ensures
        parse_text(m, a + seq!['\n'] + b).0 == parse_text(parse_text(m, a).0, b).0,
        parse_text(m, a + seq!['\n'] + b).1 == match parse_text(parse_text(m, a).0, b).1 {
            Some((n, e)) => Some((n + split_on(a, '\n').len(), e)),
            None => None,
        },
{
    lemma_split_join(a, b, '\n');
    lemma_parse_lines_join(m, split_on(a, '\n'), split_on(b, '\n'));
}

proof fn lemma_parse_lines_join(m: ThemeModel, xs: Seq<Seq<char>>, ys: Seq<Seq<char>>)
    requires
        parse_lines(m, xs).1 is None,
    ensures
        parse_lines(m, xs + ys).0 == parse_lines(parse_lines(m, xs).0, ys).0,
        parse_lines(m, xs + ys).1 == match parse_lines(parse_lines(m, xs).0, ys).1 {
            Some((n, e)) => Some((n + xs.len(), e)),
            None => None,
        },
    decreases ys.len(),
{
    if ys.len() == 0 {
        assert(xs + ys =~= xs);
    } else {
        let y1 = ys.drop_last();
        lemma_parse_lines_join(m, xs, y1);
        assert((xs + ys).drop_last() =~= xs + y1);
        assert((xs + ys).last() == ys.last());
    }
}

/// The mode colours are produced for: the requested one, or the detected
/// terminal capability for `Auto`.
pub open spec fn resolve_mode(mode: ColorMode, detected: ColorMode) -> ColorMode {
    if mode == ColorMode::Auto {
        detected
    } else {
        mode
    }
}

/// The escape sequence of every slot (position `k / 4`) in every state
/// (position `k % 4`).
pub open spec fn computed_sgr(m: ThemeModel, eff: ColorMode) -> Seq<Seq<char>> {
    Seq::new(88, |k: int| sgr_text(resolve(m, k / 4, k % 4), eff))
}

/// No escape sequence in `tab` selects a colour: each holds attribute
/// parameters only between `ESC [ 0` and `m`.
pub open spec fn no_colour_table(tab: Seq<Seq<char>>) -> bool {
    forall|k: int|
        0 <= k < tab.len() ==> sgr_valid(#[trigger] tab[k]) && attr_params(
            tab[k].subrange(3, tab[k].len() - 1),
        )
}

/// Without colour, every escape sequence of the table is well formed and
/// carries attribute parameters only: none selects a colour.
pub proof fn lemma_no_colour_table(m: ThemeModel)
    requires
        model_wf(m),
    ensures
        no_colour_table(computed_sgr(m, ColorMode::NoColor)),
{
    reveal_strlit("\x1b[0");
    reveal_strlit("m");
    let tab = computed_sgr(m, ColorMode::NoColor);
    assert forall|k: int| 0 <= k < tab.len() implies sgr_valid(#[trigger] tab[k]) && attr_params(
        tab[k].subrange(3, tab[k].len() - 1),
    ) by {
        lemma_resolve_wf(m, k / 4, k % 4);
        let st = resolve(m, k / 4, k % 4);
        lemma_sgr_text_valid(st, ColorMode::NoColor);
        let a = crate::style::attr_codes(st, ColorMode::NoColor);
        assert(tab[k] == "\x1b[0"@ + a + "m"@);
        assert(tab[k].subrange(3, tab[k].len() - 1) =~= a);
    }
}

/// The theme before any line is read: empty styles, the rounded border,
/// `[` `]` brackets and the `gbcalc` title.
pub open spec fn initial_model() -> ThemeModel {
    ThemeModel {
        base: Seq::new(22, |i: int| empty_style()),
        variant: Seq::new(88, |k: int| empty_style()),
        have: Seq::new(88, |k: int| false),
        xform: Seq::new(4, |j: int| empty_style()),
        name: "builtin"@,
        chrome: with_border(
            ChromeView {
                tl: Seq::empty(),
                tr: Seq::empty(),
                bl: Seq::empty(),
                br: Seq::empty(),
                h: Seq::empty(),
                v: Seq::empty(),
                key_left: "["@,
                key_right: "]"@,
                title: "gbcalc"@,
            },
            "rounded"@,
        ),
    }
}

proof fn lemma_merged_wf(d: Style, s: Style)
    requires
        style_wf(d),
        style_wf(s),
    ensures
        style_wf(merged(d, s)),
{
}

proof fn lemma_resolve_wf(m: ThemeModel, i: int, j: int)
    requires
        model_wf(m),
        0 <= i < 22,
        0 <= j < 4,
    ensures
        style_wf(resolve(m, i, j)),
{
    assert(style_wf(m.base[i]));
    assert(style_wf(m.xform[j]));
    assert(0 <= i * 4 + j < 88);
    assert(style_wf(m.variant[i * 4 + j]));
}

// ------------------------------------------------------------ the theme

/// The built-in theme, written in the theme file format: it also documents
/// the format.
pub const DEFAULT_THEME: &'static str = "\
# gbcalc default theme
#
# Syntax:  <slot> [fg=<colour>] [bg=<colour>] [attributes...]
# Colours: #rrggbb, #rgb, 0-255 (palette index), a colour name
#          (black red green yellow blue magenta cyan white, and the
#          bright* variants), or `default` for the terminal's own.
# Attrs:   bold dim italic underline reverse swap none
#
# A slot may be suffixed .focus, .active or .disabled to style that state
# directly; otherwise the state.* transforms below are applied to the base
# style. `key` sets every key category at once, so later, more specific
# lines override it.
#
# A user theme only needs the lines it wants to change.

name             tokyo-night
title            gbcalc
border           rounded
brackets         [ ]

# --- frame and display ---------------------------------------------
frame            fg=#7aa2f7 bold
title.style      fg=#7dcfff bold
status           fg=#7aa2f7
status.mode      fg=#7dcfff bold
status.inv       fg=#bb9af7 bold
status.mem       fg=#e0af68 bold
display          fg=#c0caf5 bold
display.error    fg=#f7768e bold
aux              fg=#7dcfff dim
hint             fg=#565f89
help.title       fg=#7dcfff bold
help.text        fg=#a9b1d6

# --- key categories ------------------------------------------------
key              fg=#16161e bg=#a9b1d6
key.digit        fg=#16161e bg=#a9b1d6
key.hexdigit     fg=#16161e bg=#73daca
key.operator     fg=#16161e bg=#ff9e64
key.sci          fg=#c0caf5 bg=#3b4261
key.bitwise      fg=#16161e bg=#bb9af7
key.mode         fg=#16161e bg=#7dcfff
key.memory       fg=#16161e bg=#e0af68
key.edit         fg=#16161e bg=#f7768e
key.equals       fg=#16161e bg=#9ece6a bold
key.paren        fg=#c0caf5 bg=#414868

# --- states --------------------------------------------------------
state.focus      swap bold
state.active     fg=#16161e bg=#9ece6a bold
state.disabled   fg=#414868 bg=default dim none
";

/// A loaded theme: the styles and glyphs it sets, the colour mode, and the
/// escape sequence of every slot in every state, ready to print.
pub struct Theme {
    base: Vec<Style>,
    variant: Vec<Style>,
    have_variant: Vec<bool>,
    xform: Vec<Style>,
    sgr: Vec<String>,
    mode: ColorMode,
    effective: ColorMode,
    detected: ColorMode,
    name: String,
    chrome: ThemeChrome,
}

impl Theme {
    /// What the theme sets.
    pub closed spec fn model(&self) -> ThemeModel {
        ThemeModel {
            base: self.base@,
            variant: self.variant@,
            have: self.have_variant@,
            xform: self.xform@,
            name: self.name@,
            chrome: self.chrome@,
        }
    }

    /// The escape sequences last built, by slot * 4 + state.
    pub closed spec fn sgr_table(&self) -> Seq<Seq<char>> {
        self.sgr@.map_values(|t: String| t@)
    }

    /// The requested colour mode.
    pub closed spec fn color_mode(&self) -> ColorMode {
        self.mode
    }

    /// The mode the escape sequences were built for.
    pub closed spec fn effective_mode(&self) -> ColorMode {
        self.effective
    }

    /// The terminal's capability, which `Auto` stands for.
    pub closed spec fn detected_mode(&self) -> ColorMode {
        self.detected
    }

    /// Table sizes, colour ranges, and modes that are resolved.
    pub closed spec fn wf(&self) -> bool {
        &&& self.tables_wf()
        &&& self.effective == resolve_mode(self.mode, self.detected)
    }

    closed spec fn tables_wf(&self) -> bool {
        &&& model_wf(self.model())
        &&& self.sgr@.len() == 88
        &&& forall|k: int| 0 <= k < 88 ==> sgr_valid(#[trigger] self.sgr@[k]@)
        &&& self.effective != ColorMode::Auto
        &&& self.detected != ColorMode::Auto
    }

    fn resolve_exec(&self, i: usize, j: usize) -> (r: Style)
        requires
            self.tables_wf(),
            i < 22,
            j < 4,
        ensures
            r == resolve(self.model(), i as int, j as int),
            style_wf(r),
    {
        proof {
            lemma_resolve_wf(self.model(), i as int, j as int);
        }
        let mut out = self.base[i];
        if j == 0 {
            return out;
        }
        if self.have_variant[i * 4 + j] {
            merge(&mut out, &self.variant[i * 4 + j]);
            return out;
        }
        let xform = self.xform[j];
        if xform.attrs & ATTR_SWAP != 0 {
            if out.set & SET_FG != 0 && out.set & SET_BG != 0 {
                let fg = out.fg;
                out.fg = out.bg;
                out.bg = fg;
                out.attrs = out.attrs | ATTR_SWAPPED;
            } else {
                out.attrs = out.attrs | ATTR_REVERSE;
            }
        }
        merge(&mut out, &xform);
        out.attrs = out.attrs & !(ATTR_SWAP | ATTR_CLEAR);
        out
    }

    /// Build every escape sequence afresh for the current mode.
    fn rebuild(&mut self)
        requires
            old(self).tables_wf(),
        ensures
            final(self).wf(),
            final(self).model() == old(self).model(),
            final(self).color_mode() == old(self).color_mode(),
            final(self).detected_mode() == old(self).detected_mode(),
            final(self).effective_mode() == resolve_mode(
                old(self).color_mode(),
                old(self).detected_mode(),
            ),
            final(self).sgr_table() == computed_sgr(
                final(self).model(),
                final(self).effective_mode(),
            ),
    {
        let eff = if self.mode == ColorMode::Auto {
            self.detected
        } else {
            self.mode
        };
        let mut table: Vec<String> = Vec::new();
        let mut k: usize = 0;
        while k < 88
            invariant
                k <= 88,
                self.tables_wf(),
                table@.len() == k,
                forall|q: int|
                    0 <= q < k ==> (#[trigger] table@[q])@ == sgr_text(
                        resolve(self.model(), q / 4, q % 4),
                        eff,
                    ),
                forall|q: int| 0 <= q < k ==> sgr_valid(#[trigger] table@[q]@),
            decreases 88 - k,
        {
            let st = self.resolve_exec(k / 4, k % 4);
            proof {
                lemma_sgr_text_valid(st, eff);
            }
            let t = build_sgr_text(&st, eff);
            table.push(chars_to_string(t.as_slice()));
            k += 1;
        }
        self.effective = eff;
        self.sgr = table;
        assert(self.sgr_table() =~= computed_sgr(self.model(), eff));
    }

    /// Lay `st` over slot `i` in state `j`.
    fn apply_slot_exec(&mut self, i: usize, j: usize, st: &Style)
        requires
            old(self).wf(),
            i < 22,
            j < 4,
            style_wf(*st),
        ensures
            final(self).wf(),
            final(self).model() == apply_slot(old(self).model(), i as int, j as int, *st),
            final(self).sgr_table() == old(self).sgr_table(),
            final(self).color_mode() == old(self).color_mode(),
            final(self).effective_mode() == old(self).effective_mode(),
            final(self).detected_mode() == old(self).detected_mode(),
    {
        if j == 0 {
            let mut b = self.base[i];
            merge(&mut b, st);
            proof {
                lemma_merged_wf(self.base@[i as int], *st);
            }
            self.base.set(i, b);
        } else {
            let k = i * 4 + j;
            let mut v = self.variant[k];
            merge(&mut v, st);
            proof {
                lemma_merged_wf(self.variant@[k as int], *st);
            }
            self.variant.set(k, v);
            self.have_variant.set(k, true);
        }
        assert(self.model() =~= apply_slot(old(self).model(), i as int, j as int, *st));
    }

    /// Lay `st` over every key category in state `j`.
    fn apply_keys_exec(&mut self, j: usize, st: &Style)
        requires
            old(self).wf(),
            j < 4,
            style_wf(*st),
        ensures
            final(self).wf(),
            final(self).model() == apply_keys(old(self).model(), j as int, *st),
            final(self).sgr_table() == old(self).sgr_table(),
            final(self).color_mode() == old(self).color_mode(),
            final(self).effective_mode() == old(self).effective_mode(),
            final(self).detected_mode() == old(self).detected_mode(),
    {
        let ghost m0 = self.model();
        let ids = key_slot_ids();
        let mut n: usize = 0;
        while n < ids.len()
            invariant
                ids@.len() == 10,
                forall|q: int| 0 <= q < 10 ==> sid(#[trigger] ids@[q]) == 12 + q,
                n <= 10,
                j < 4,
                style_wf(*st),
                self.model().name == m0.name,
                self.model().chrome == m0.chrome,
                self.model().xform == m0.xform,
                self.sgr_table() == old(self).sgr_table(),
                self.color_mode() == old(self).color_mode(),
                self.effective_mode() == old(self).effective_mode(),
                self.detected_mode() == old(self).detected_mode(),
                self.wf(),
                j == 0 ==> forall|i: int|
                    0 <= i < 22 ==> (#[trigger] self.model().base[i]) == if 12 <= i < 12 + n {
                        merged(m0.base[i], *st)
                    } else {
                        m0.base[i]
                    },
                j == 0 ==> self.model().variant == m0.variant && self.model().have == m0.have,
                j != 0 ==> self.model().base == m0.base,
                j != 0 ==> forall|k: int|
                    0 <= k < 88 ==> (#[trigger] self.model().variant[k]) == if 12 <= k / 4 < 12
                        + n && k % 4 == j {
                        merged(m0.variant[k], *st)
                    } else {
                        m0.variant[k]
                    },
                j != 0 ==> forall|k: int|
                    0 <= k < 88 ==> (#[trigger] self.model().have[k]) == if 12 <= k / 4 < 12 + n
                        && k % 4 == j {
                        true
                    } else {
                        m0.have[k]
                    },
            decreases 10 - n,
        {
            let i = ids[n].index();
            assert(i == 12 + n);
            self.apply_slot_exec(i, j, st);
            n += 1;
        }
        assert(self.model() =~= apply_keys(m0, j as int, *st));
    }

    /// The effect of one line (see `apply_line`); a refused line changes
    /// nothing.
    fn apply_line_exec(&mut self, raw: &[char]) -> (r: Result<(), LineError>)
        requires
            old(self).wf(),
        ensures
            final(self).wf(),
            match apply_line(old(self).model(), raw@) {
                Ok(m) => r is Ok && final(self).model() == m,
                Err(e) => r matches Err(x) && x.view() == e && final(self).model() == old(
                    self,
                ).model(),
            },
            final(self).sgr_table() == old(self).sgr_table(),
            final(self).color_mode() == old(self).color_mode(),
            final(self).effective_mode() == old(self).effective_mode(),
            final(self).detected_mode() == old(self).detected_mode(),
    {
        let line = strip_comment(raw);
        let (tok, rest) = split_first_token(line.as_slice());
        if tok.len() == 0 {
            return Ok(());
        }
        if eq_str(tok.as_slice(), "name") {
            let t = trim_end_seps(rest.as_slice());
            self.name = chars_to_string(t.as_slice());
            return Ok(());
        }
        if eq_str(tok.as_slice(), "title") {
            let t = trim_end_seps(rest.as_slice());
            self.chrome.title = chars_to_string(t.as_slice());
            return Ok(());
        }
        if eq_str(tok.as_slice(), "border") {
            let ws = split_words(rest.as_slice());
            if ws.len() > 0 {
                assert(ws.deep_view()[0] == ws@[0]@);
                set_border(&mut self.chrome, ws[0].as_slice());
            } else {
                let dflt = str_chars("rounded");
                set_border(&mut self.chrome, dflt.as_slice());
            }
            return Ok(());
        }
        if eq_str(tok.as_slice(), "brackets") {
            let ws = split_words(rest.as_slice());
            if ws.len() > 0 {
                assert(ws.deep_view()[0] == ws@[0]@);
            }
            if ws.len() == 0 || eq_str(ws[0].as_slice(), "none") {
                self.chrome.key_left = String::new();
                self.chrome.key_right = String::new();
            } else {
                assert(ws.deep_view()[0] == ws@[0]@);
                self.chrome.key_left = chars_to_string(ws[0].as_slice());
                if ws.len() > 1 {
                    assert(ws.deep_view()[1] == ws@[1]@);
                    self.chrome.key_right = chars_to_string(ws[1].as_slice());
                } else {
                    self.chrome.key_right = chars_to_string(ws[0].as_slice());
                }
            }
            return Ok(());
        }
        let (slot, j) = split_state(tok.as_slice());
        let ws = split_words(rest.as_slice());
        let st = match parse_style_exec(&ws) {
            Err(w) => {
                return Err(LineError::BadValue(w));
            },
            Ok(s) => s,
        };
        if eq_str(slot.as_slice(), "state") {
            if j == 0 {
                return Err(LineError::StateNeedsSuffix);
            }
            let mut x = self.xform[j];
            merge(&mut x, &st);
            proof {
                lemma_merged_wf(self.xform@[j as int], st);
            }
            self.xform.set(j, x);
            assert(self.model() =~= ThemeModel {
                xform: old(self).model().xform.update(
                    j as int,
                    merged(old(self).model().xform[j as int], st),
                ),
                ..old(self).model()
            });
            return Ok(());
        }
        if eq_str(slot.as_slice(), "key") {
            self.apply_keys_exec(j, &st);
            return Ok(());
        }
        match lookup_slot(slot.as_slice()) {
            None => Err(LineError::UnknownSlot(slot)),
            Some(i) => {
                self.apply_slot_exec(i, j, &st);
                Ok(())
            },
        }
    }
}

impl Theme {
    /// Read a whole theme text over this theme, line by line. The first
    /// refused line stops the reading, keeps what the lines before it did,
    /// and is reported as `<origin>:<line>: <reason>`. The escape sequences
    /// are not rebuilt here.
    pub fn parse_buffer(&mut self, text: &str, origin: &str) -> (r: Result<(), String>)
        requires
            old(self).wf(),
        ensures
            final(self).wf(),
            final(self).model() == parse_text(old(self).model(), text@).0,
            r is Ok <==> parse_text(old(self).model(), text@).1 is None,
            r matches Err(msg) ==> msg@ == refusal_text(origin@, old(self).model(), text@),
            final(self).sgr_table() == old(self).sgr_table(),
            final(self).color_mode() == old(self).color_mode(),
            final(self).effective_mode() == old(self).effective_mode(),
            final(self).detected_mode() == old(self).detected_mode(),
    {
        let ghost m0 = self.model();
        let chars = str_chars(text);
        let lines = split_chars(chars.as_slice(), '\n');
        let ghost ls = lines.deep_view();
        let mut i: usize = 0;
        while i < lines.len()
            invariant
                m0 == old(self).model(),
                ls == lines.deep_view(),
                ls == split_on(text@, '\n'),
                ls.len() == lines@.len(),
                i <= lines@.len(),
                self.wf(),
                parse_lines(m0, ls.take(i as int)) == (self.model(), None::<(int, ThemeError)>),
                self.sgr_table() == old(self).sgr_table(),
                self.color_mode() == old(self).color_mode(),
                self.effective_mode() == old(self).effective_mode(),
                self.detected_mode() == old(self).detected_mode(),
            decreases lines@.len() - i,
        {
            assert(ls.take(i + 1).drop_last() == ls.take(i as int));
            assert(ls[i as int] == lines@[i as int]@);
            let ghost before = self.model();
            match self.apply_line_exec(lines[i].as_slice()) {
                Ok(()) => {},
                Err(e) => {
                    proof {
                        lemma_parse_lines_refused(m0, ls, i as int, before, e.view());
                    }
                    let msg = error_message(origin, i + 1, &e);
                    return Err(msg);
                },
            }
            i += 1;
        }
        assert(ls.take(ls.len() as int) == ls);
        Ok(())
    }

    /// Install the built-in default theme. Until the terminal's capability
    /// is known (see `set_detected_mode`), `Auto` stands for true colour.
    pub fn new() -> (t: Theme)
        ensures
            t.wf(),
            t.model() == parse_text(initial_model(), DEFAULT_THEME@).0,
            t.color_mode() == ColorMode::Auto,
            t.detected_mode() == ColorMode::TrueColor,
            t.effective_mode() == ColorMode::TrueColor,
            t.sgr_table() == computed_sgr(t.model(), ColorMode::TrueColor),
    {
        let mut chrome = ThemeChrome {
            tl: String::new(),
            tr: String::new(),
            bl: String::new(),
            br: String::new(),
            h: String::new(),
            v: String::new(),
            key_left: string_of("["),
            key_right: string_of("]"),
            title: string_of("gbcalc"),
        };
        let rounded = str_chars("rounded");
        set_border(&mut chrome, rounded.as_slice());
        let mut sgr: Vec<String> = Vec::new();
        let mut k: usize = 0;
        proof {
            reveal_strlit("\x1b[0m");
            reveal_strlit("\x1b[0");
            assert(sgr_valid("\x1b[0m"@)) by {
                assert("\x1b[0m"@.take(3) =~= "\x1b[0"@);
            }
        }
        while k < 88
            invariant
                k <= 88,
                sgr@.len() == k,
                forall|q: int| 0 <= q < k ==> sgr_valid(#[trigger] sgr@[q]@),
                sgr_valid("\x1b[0m"@),
            decreases 88 - k,
        {
            sgr.push(string_of("\x1b[0m"));
            k += 1;
        }
        let mut theme = Theme {
            base: vec_of_styles(22),
            variant: vec_of_styles(88),
            have_variant: vec_of_false(88),
            xform: vec_of_styles(4),
            sgr,
            mode: ColorMode::Auto,
            effective: ColorMode::TrueColor,
            detected: ColorMode::TrueColor,
            name: string_of("builtin"),
            chrome,
        };
        assert(theme.model() =~= initial_model());
        let _ = theme.parse_buffer(DEFAULT_THEME, "<builtin>");
        theme.rebuild();
        theme
    }

    /// Read a theme file's text over this theme and, when every line is
    /// accepted, rebuild the escape sequences.
    pub fn load_text(&mut self, text: &str, origin: &str) -> (r: Result<(), String>)
        requires
            old(self).wf(),
        ensures
            final(self).wf(),
            final(self).model() == parse_text(old(self).model(), text@).0,
            r is Ok <==> parse_text(old(self).model(), text@).1 is None,
            r matches Err(msg) ==> msg@ == refusal_text(origin@, old(self).model(), text@),
            r is Ok ==> final(self).sgr_table() == computed_sgr(
                final(self).model(),
                final(self).effective_mode(),
            ),
            r is Err ==> final(self).sgr_table() == old(self).sgr_table(),
            final(self).color_mode() == old(self).color_mode(),
            final(self).detected_mode() == old(self).detected_mode(),
            final(self).effective_mode() == old(self).effective_mode(),
    {
        let r = self.parse_buffer(text, origin);
        if r.is_err() {
            return r;
        }
        self.rebuild();
        r
    }

    /// Request a colour mode and rebuild every escape sequence for it.
    pub fn set_color_mode(&mut self, m: ColorMode)
        requires
            old(self).wf(),
        ensures
            final(self).wf(),
            final(self).model() == old(self).model(),
            final(self).color_mode() == m,
            final(self).detected_mode() == old(self).detected_mode(),
            final(self).effective_mode() == resolve_mode(m, old(self).detected_mode()),
            final(self).sgr_table() == computed_sgr(
                final(self).model(),
                final(self).effective_mode(),
            ),
            final(self).effective_mode() == ColorMode::NoColor ==> no_colour_table(
                final(self).sgr_table(),
            ),
    {
        self.mode = m;
        self.rebuild();
        proof {
            lemma_no_colour_table(self.model());
        }
    }

    /// Record what the terminal can show, which `Auto` stands for, and
    /// rebuild. `Auto` itself tells nothing and leaves the record as it is.
    pub fn set_detected_mode(&mut self, d: ColorMode)
        requires
            old(self).wf(),
        ensures
            final(self).wf(),
            final(self).model() == old(self).model(),
            final(self).color_mode() == old(self).color_mode(),
            final(self).detected_mode() == if d == ColorMode::Auto {
                old(self).detected_mode()
            } else {
                d
            },
            final(self).effective_mode() == resolve_mode(
                final(self).color_mode(),
                final(self).detected_mode(),
            ),
            final(self).sgr_table() == computed_sgr(
                final(self).model(),
                final(self).effective_mode(),
            ),
            final(self).effective_mode() == ColorMode::NoColor ==> no_colour_table(
                final(self).sgr_table(),
            ),
    {
        if d != ColorMode::Auto {
            self.detected = d;
        }
        self.rebuild();
        proof {
            lemma_no_colour_table(self.model());
        }
    }

    pub fn name(&self) -> (r: &str)
        ensures
            r@ == self.model().name,
    {
        self.name.as_str()
    }

    pub fn chrome(&self) -> (r: &ThemeChrome)
        ensures
            r@ == self.model().chrome,
    {
        &self.chrome
    }

    /// Escape sequence for a slot in a state, as last built; always a
    /// well-formed one.
    pub fn sgr(&self, id: StyleId, st: StyleState) -> (r: &str)
        requires
            self.wf(),
        ensures
            r@ == self.sgr_table()[sid(id) * 4 + stid(st)],
            sgr_valid(r@),
    {
        proof {
            lemma_id_index(id);
            lemma_state_index(st);
        }
        let k = id.index() * 4 + st.index();
        self.sgr[k].as_str()
    }
}

impl Default for Theme {
    /// The built-in theme, as `new` installs it.
    fn default() -> (t: Theme)
        ensures
            t.wf(),
            t.model() == parse_text(initial_model(), DEFAULT_THEME@).0,
            t.color_mode() == ColorMode::Auto,
            t.effective_mode() == ColorMode::TrueColor,
    {
        Theme::new()
    }
}

fn vec_of_styles(n: usize) -> (v: Vec<Style>)
    ensures
        v@ == Seq::new(n as nat, |i: int| empty_style()),
{
    let mut v: Vec<Style> = Vec::new();
    let mut i: usize = 0;
    while i < n
        invariant
            i <= n,
            v@ == Seq::new(i as nat, |q: int| empty_style()),
        decreases n - i,
    {
        v.push(style_empty());
        i += 1;
        assert(v@ =~= Seq::new(i as nat, |q: int| empty_style()));
    }
    v
}

fn vec_of_false(n: usize) -> (v: Vec<bool>)
    ensures
        v@ == Seq::new(n as nat, |i: int| false),
{
    let mut v: Vec<bool> = Vec::new();
    let mut i: usize = 0;
    while i < n
        invariant
            i <= n,
            v@ == Seq::new(i as nat, |q: int| false),
        decreases n - i,
    {
        v.push(false);
        i += 1;
        assert(v@ =~= Seq::new(i as nat, |q: int| false));
    }
    v
}

fn error_message(origin: &str, lineno: usize, e: &LineError) -> (msg: String)
    ensures
        msg@ == error_text(origin@, lineno as int, e.view()),
{
    let mut buf: Vec<char> = Vec::new();
    push_str(&mut buf, origin);
    push_str(&mut buf, ":");
    push_dec(&mut buf, lineno as u64);
    let ghost head = buf@;
    match e {
        LineError::BadValue(w) => {
            push_str(&mut buf, ": bad value '");
            push_all(&mut buf, w.as_slice());
            push_str(&mut buf, "'");
        },
        LineError::StateNeedsSuffix => {
            push_str(&mut buf, ": state needs .focus, .active or .disabled");
        },
        LineError::UnknownSlot(sl) => {
            push_str(&mut buf, ": unknown slot '");
            push_all(&mut buf, sl.as_slice());
            push_str(&mut buf, "'");
        },
    }
    assert(buf@ =~= error_text(origin@, lineno as int, e.view()));
    chars_to_string(buf.as_slice())
}

/// Sequence that returns the terminal to its default appearance.
pub fn sgr_reset() -> (r: &'static str)
    ensures
        r@ == "\x1b[0m"@,
{
    "\x1b[0m"
}

/// The built-in theme, which doubles as the format's documentation.
pub fn dump() -> (r: &'static str)
    ensures
        r == DEFAULT_THEME,
{
    DEFAULT_THEME
}

/// A colour mode as the command line names it.
pub open spec fn spec_color_mode_name(s: Seq<char>) -> Option<ColorMode> {
    if s == "auto"@ {
        Some(ColorMode::Auto)
    } else if s == "truecolor"@ || s == "24bit"@ {
        Some(ColorMode::TrueColor)
    } else if s == "256"@ {
        Some(ColorMode::C256)
    } else if s == "16"@ || s == "ansi"@ {
        Some(ColorMode::C16)
    } else if s == "none"@ || s == "off"@ {
        Some(ColorMode::NoColor)
    } else {
        None
    }
}

pub fn parse_color_mode(s: &str) -> (r: Option<ColorMode>)
    ensures
        r == spec_color_mode_name(s@),
{
    let v = str_chars(s);
    let v = v.as_slice();
    if eq_str(v, "auto") {
        Some(ColorMode::Auto)
    } else if eq_str(v, "truecolor") || eq_str(v, "24bit") {
        Some(ColorMode::TrueColor)
    } else if eq_str(v, "256") {
        Some(ColorMode::C256)
    } else if eq_str(v, "16") || eq_str(v, "ansi") {
        Some(ColorMode::C16)
    } else if eq_str(v, "none") || eq_str(v, "off") {
        Some(ColorMode::NoColor)
    } else {
        None
    }
}

/// The key categories, in table order.
pub fn key_slot_ids() -> (ids: Vec<StyleId>)
    ensures
        ids@.len() == 10,
        forall|q: int| 0 <= q < 10 ==> sid(#[trigger] ids@[q]) == 12 + q,
{
    let mut ids: Vec<StyleId> = Vec::new();
    let mut i: usize = 12;
    while i < 22
        invariant
            12 <= i <= 22,
            ids@.len() == i - 12,
            forall|q: int| 0 <= q < i - 12 ==> sid(#[trigger] ids@[q]) == 12 + q,
        decreases 22 - i,
    {
        ids.push(StyleId::at(i));
        i += 1;
    }
    ids
}

} // verus!
