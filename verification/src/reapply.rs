//! What reading a theme text does to each part of a theme, summed up as an
//! effect: a style laid over each style slot, flags raised, texts set.
//! Effects compose, and laying one twice is laying it once; so reading a
//! text again, such as the built-in theme over itself, changes nothing.

use vstd::prelude::*;
use crate::style::{lemma_merge_laws, merged, Style, ATTR_CLEAR, SET_BG, SET_FG};
use crate::text::{first_word, split_first, split_on, trim_end_sep, words};
use crate::theme::{
    apply_line, border_glyphs, code_part, is_key_slot, line_refused, model_wf, parse_lines,
    parse_style, parse_text, slot_index, spec_split_state, ChromeView, ThemeModel,
};

verus! {

/// What some theme lines do: for each style slot the style laid over it
/// (if any), the state variants they mark as given, and the texts they
/// set.
#[verifier::ext_equal]
pub struct Effect {
    pub base: Seq<Option<Style>>,
    pub variant: Seq<Option<Style>>,
    pub have: Seq<bool>,
    pub xform: Seq<Option<Style>>,
    pub name: Option<Seq<char>>,
    pub tl: Option<Seq<char>>,
    pub tr: Option<Seq<char>>,
    pub bl: Option<Seq<char>>,
    pub br: Option<Seq<char>>,
    pub h: Option<Seq<char>>,
    pub v: Option<Seq<char>>,
    pub key_left: Option<Seq<char>>,
    pub key_right: Option<Seq<char>>,
    pub title: Option<Seq<char>>,
}

/// The tables of a theme have their sizes: 22 slots, 4 states.
pub open spec fn model_sized(m: ThemeModel) -> bool {
    &&& m.base.len() == 22
    &&& m.variant.len() == 88
    &&& m.have.len() == 88
    &&& m.xform.len() == 4
}

pub open spec fn effect_sized(e: Effect) -> bool {
    &&& e.base.len() == 22
    &&& e.variant.len() == 88
    &&& e.have.len() == 88
    &&& e.xform.len() == 4
}

/// Doing nothing.
pub open spec fn no_effect() -> Effect {
    Effect {
        base: Seq::new(22, |i: int| None),
        variant: Seq::new(88, |k: int| None),
        have: Seq::new(88, |k: int| false),
        xform: Seq::new(4, |j: int| None),
        name: None,
        tl: None,
        tr: None,
        bl: None,
        br: None,
        h: None,
        v: None,
        key_left: None,
        key_right: None,
        title: None,
    }
}

/// `x` with the style `o` laid over it, if any.
pub open spec fn lay(x: Style, o: Option<Style>) -> Style {
    match o {
        Some(s) => merged(x, s),
        None => x,
    }
}

pub open spec fn set_opt(x: Seq<char>, o: Option<Seq<char>>) -> Seq<char> {
    match o {
        Some(t) => t,
        None => x,
    }
}

/// The theme after an effect.
pub open spec fn apply_effect(m: ThemeModel, e: Effect) -> ThemeModel {
    ThemeModel {
        base: Seq::new(m.base.len(), |i: int| lay(m.base[i], e.base[i])),
        variant: Seq::new(m.variant.len(), |k: int| lay(m.variant[k], e.variant[k])),
        have: Seq::new(m.have.len(), |k: int| m.have[k] || e.have[k]),
        xform: Seq::new(m.xform.len(), |j: int| lay(m.xform[j], e.xform[j])),
        name: set_opt(m.name, e.name),
        chrome: ChromeView {
            tl: set_opt(m.chrome.tl, e.tl),
            tr: set_opt(m.chrome.tr, e.tr),
            bl: set_opt(m.chrome.bl, e.bl),
            br: set_opt(m.chrome.br, e.br),
            h: set_opt(m.chrome.h, e.h),
            v: set_opt(m.chrome.v, e.v),
            key_left: set_opt(m.chrome.key_left, e.key_left),
            key_right: set_opt(m.chrome.key_right, e.key_right),
            title: set_opt(m.chrome.title, e.title),
        },
    }
}

/// One style laid over another, as a single style: the upper one's
/// colours win, and attributes accumulate unless the upper one clears.
pub open spec fn combine(a: Style, b: Style) -> Style {
    Style {
        fg: if b.set & SET_FG != 0 {
            b.fg
        } else {
            a.fg
        },
        bg: if b.set & SET_BG != 0 {
            b.bg
        } else {
            a.bg
        },
        attrs: if b.attrs & ATTR_CLEAR != 0 {
            b.attrs
        } else {
            a.attrs | b.attrs
        },
        set: a.set | b.set,
    }
}

pub open spec fn after(o1: Option<Style>, o2: Option<Style>) -> Option<Style> {
    match (o1, o2) {
        (_, None) => o1,
        (None, Some(b)) => Some(b),
        (Some(a), Some(b)) => Some(combine(a, b)),
    }
}

pub open spec fn later(o1: Option<Seq<char>>, o2: Option<Seq<char>>) -> Option<Seq<char>> {
    match o2 {
        Some(_) => o2,
        None => o1,
    }
}

/// `e1`, then `e2`.
pub open spec fn then_effect(e1: Effect, e2: Effect) -> Effect {
    Effect {
        base: Seq::new(22, |i: int| after(e1.base[i], e2.base[i])),
        variant: Seq::new(88, |k: int| after(e1.variant[k], e2.variant[k])),
        have: Seq::new(88, |k: int| e1.have[k] || e2.have[k]),
        xform: Seq::new(4, |j: int| after(e1.xform[j], e2.xform[j])),
        name: later(e1.name, e2.name),
        tl: later(e1.tl, e2.tl),
        tr: later(e1.tr, e2.tr),
        bl: later(e1.bl, e2.bl),
        br: later(e1.br, e2.br),
        h: later(e1.h, e2.h),
        v: later(e1.v, e2.v),
        key_left: later(e1.key_left, e2.key_left),
        key_right: later(e1.key_right, e2.key_right),
        title: later(e1.title, e2.title),
    }
}

/// What one accepted theme line does (nothing for a refused one).
pub open spec fn line_effect(raw: Seq<char>) -> Effect {
    let (tok, rest) = split_first(code_part(raw));
    let n = no_effect();
    if tok.len() == 0 || line_refused(raw) {
        n
    } else if tok == "name"@ {
        Effect { name: Some(trim_end_sep(rest)), ..n }
    } else if tok == "title"@ {
        Effect { title: Some(trim_end_sep(rest)), ..n }
    } else if tok == "border"@ {
        let kind = match first_word(rest) {
            Some(w) => w,
            None => "rounded"@,
        };
        let g = border_glyphs(kind);
        Effect {
            tl: Some(g[0]),
            tr: Some(g[1]),
            bl: Some(g[2]),
            br: Some(g[3]),
            h: Some(g[4]),
            v: Some(g[5]),
            ..n
        }
    } else if tok == "brackets"@ {
        let ws = words(rest);
        if ws.len() == 0 || ws[0] == "none"@ {
            Effect { key_left: Some(Seq::empty()), key_right: Some(Seq::empty()), ..n }
        } else {
            Effect {
                key_left: Some(ws[0]),
                key_right: Some(
                    if ws.len() > 1 {
                        ws[1]
                    } else {
                        ws[0]
                    },
                ),
                ..n
            }
        }
    } else {
        let (slot, j) = spec_split_state(tok);
        let s = parse_style(words(rest))->Ok_0;
        if slot == "state"@ {
            Effect { xform: n.xform.update(j, Some(s)), ..n }
        } else {
            let cell = |i: int| if slot == "key"@ {
                is_key_slot(i)
            } else {
                slot_index(slot) == Some(i)
            };
            if j == 0 {
                Effect { base: Seq::new(22, |i: int| if cell(i) { Some(s) } else { None }), ..n }
            } else {
                Effect {
                    variant: Seq::new(
                        88,
                        |k: int|
                            if cell(k / 4) && k % 4 == j {
                                Some(s)
                            } else {
                                None
                            },
                    ),
                    have: Seq::new(88, |k: int| cell(k / 4) && k % 4 == j),
                    ..n
                }
            }
        }
    }
}

/// What reading the lines does, up to the first refused one.
pub open spec fn lines_effect(ls: Seq<Seq<char>>) -> Effect
    decreases ls.len(),
{
    if ls.len() == 0 {
        no_effect()
    } else {
        let e = lines_effect(ls.drop_last());
        if lines_accepted(ls.drop_last()) {
            then_effect(e, line_effect(ls.last()))
        } else {
            e
        }
    }
}

pub open spec fn lines_accepted(ls: Seq<Seq<char>>) -> bool {
    forall|j: int| 0 <= j < ls.len() ==> !line_refused(#[trigger] ls[j])
}

// ------------------------------------------------------------ proofs

proof fn lemma_combine(x: Style, a: Style, b: Style)
    ensures
        merged(merged(x, a), b) == merged(x, combine(a, b)),
{
    let (xa, aa, ba) = (x.attrs, a.attrs, b.attrs);
    let (xs, as_, bs) = (x.set, a.set, b.set);
    assert(((aa & !0x40u32) | ba) & 0x40u32 == 0 ==> ((aa & !0x40u32) | ba) == ((aa | ba) & !0x40u32))
        by (bit_vector);
    assert(ba & 0x40u32 == 0 && aa & 0x40u32 != 0 ==> ((aa & !0x40u32) | ba) == ((aa | ba)
        & !0x40u32)) by (bit_vector);
    assert(aa & 0x40u32 == 0 && ba & 0x40u32 == 0 ==> (aa | ba) & 0x40u32 == 0) by (bit_vector);
    assert(aa & 0x40u32 != 0 ==> (aa | ba) & 0x40u32 != 0) by (bit_vector);
    assert(((xa | aa) | ba) == (xa | (aa | ba))) by (bit_vector);
    assert((as_ | bs) & 1u32 != 0 <==> (as_ & 1u32 != 0 || bs & 1u32 != 0)) by (bit_vector);
    assert((as_ | bs) & 2u32 != 0 <==> (as_ & 2u32 != 0 || bs & 2u32 != 0)) by (bit_vector);
    assert(((xs | 1u32) | 1u32) == (xs | 1u32)) by (bit_vector);
    assert(((xs | 2u32) | 2u32) == (xs | 2u32)) by (bit_vector);
    assert((((xs | 1u32) | 2u32) | 1u32) == ((xs | 1u32) | 2u32)) by (bit_vector);
    assert((((xs | 2u32) | 1u32)) == ((xs | 1u32) | 2u32)) by (bit_vector);
    assert((((xs | 1u32) | 2u32) | 2u32) == ((xs | 1u32) | 2u32)) by (bit_vector);
    assert((((xs | 2u32) | 1u32) | 2u32) == ((xs | 1u32) | 2u32)) by (bit_vector);
    assert((((xs | 1u32) | 1u32) | 2u32) == ((xs | 1u32) | 2u32)) by (bit_vector);
    assert((((xs | 2u32) | 2u32) | 1u32) == ((xs | 1u32) | 2u32)) by (bit_vector);
}

proof fn lemma_lay_after(x: Style, o1: Option<Style>, o2: Option<Style>)
    ensures
        lay(lay(x, o1), o2) == lay(x, after(o1, o2)),
{
    if let (Some(a), Some(b)) = (o1, o2) {
        lemma_combine(x, a, b);
    }
}

proof fn lemma_lay_twice(x: Style, o: Option<Style>)
    ensures
        lay(lay(x, o), o) == lay(x, o),
{
    if let Some(s) = o {
        lemma_merge_laws(x, s);
    }
}

/// Effects compose.
#[verifier::spinoff_prover]
#[verifier::rlimit(50)]
proof fn lemma_then_effect(m: ThemeModel, e1: Effect, e2: Effect)
    requires
        model_sized(m),
        effect_sized(e1),
        effect_sized(e2),
    ensures
        apply_effect(apply_effect(m, e1), e2) == apply_effect(m, then_effect(e1, e2)),
        effect_sized(then_effect(e1, e2)),
        model_sized(apply_effect(m, e1)),
{
    let a = apply_effect(apply_effect(m, e1), e2);
    let b = apply_effect(m, then_effect(e1, e2));
    assert forall|i: int| 0 <= i < 22 implies a.base[i] == b.base[i] by {
        lemma_lay_after(m.base[i], e1.base[i], e2.base[i]);
    }
    assert forall|k: int| 0 <= k < 88 implies a.variant[k] == b.variant[k] by {
        lemma_lay_after(m.variant[k], e1.variant[k], e2.variant[k]);
    }
    assert forall|j: int| 0 <= j < 4 implies a.xform[j] == b.xform[j] by {
        lemma_lay_after(m.xform[j], e1.xform[j], e2.xform[j]);
    }
    assert(a.base =~= b.base);
    assert(a.variant =~= b.variant);
    assert(a.have =~= b.have);
    assert(a.xform =~= b.xform);
    assert(a =~= b);
}

/// Laying an effect twice is laying it once.
proof fn lemma_effect_twice(m: ThemeModel, e: Effect)
    requires
        model_sized(m),
        effect_sized(e),
    ensures
        apply_effect(apply_effect(m, e), e) == apply_effect(m, e),
{
    let a = apply_effect(apply_effect(m, e), e);
    let b = apply_effect(m, e);
    assert forall|i: int| 0 <= i < 22 implies a.base[i] == b.base[i] by {
        lemma_lay_twice(m.base[i], e.base[i]);
    }
    assert forall|k: int| 0 <= k < 88 implies a.variant[k] == b.variant[k] by {
        lemma_lay_twice(m.variant[k], e.variant[k]);
    }
    assert forall|j: int| 0 <= j < 4 implies a.xform[j] == b.xform[j] by {
        lemma_lay_twice(m.xform[j], e.xform[j]);
    }
    assert(a.base =~= b.base);
    assert(a.variant =~= b.variant);
    assert(a.have =~= b.have);
    assert(a.xform =~= b.xform);
    assert(a =~= b);
}

proof fn lemma_no_effect(m: ThemeModel)
    requires
        model_sized(m),
    ensures
        apply_effect(m, no_effect()) == m,
{
    let a = apply_effect(m, no_effect());
    assert(a.base =~= m.base);
    assert(a.variant =~= m.variant);
    assert(a.have =~= m.have);
    assert(a.xform =~= m.xform);
    assert(a.chrome =~= m.chrome);
    assert(a =~= m);
}

/// An accepted line does what its effect says.
proof fn lemma_line_effect(m: ThemeModel, raw: Seq<char>)
    requires
        model_sized(m),
        !line_refused(raw),
    ensures
        apply_line(m, raw) == Ok::<ThemeModel, crate::theme::ThemeError>(
            apply_effect(m, line_effect(raw)),
        ),
        effect_sized(line_effect(raw)),
{
    crate::theme::lemma_apply_line_refused(m, raw);
    lemma_no_effect(m);
    let (tok, rest) = split_first(code_part(raw));
    let e = line_effect(raw);
    let a = apply_effect(m, e);
    let r = apply_line(m, raw)->Ok_0;
    if tok.len() == 0 {
    } else if tok == "name"@ || tok == "title"@ || tok == "border"@ || tok == "brackets"@ {
        assert(a.base =~= r.base);
        assert(a.variant =~= r.variant);
        assert(a.have =~= r.have);
        assert(a.xform =~= r.xform);
        assert(a.chrome =~= r.chrome);
        assert(a =~= r);
    } else {
        let (slot, j) = spec_split_state(tok);
        let s = parse_style(words(rest))->Ok_0;
        if slot == "state"@ {
            assert(a.base =~= r.base);
            assert(a.variant =~= r.variant);
            assert(a.have =~= r.have);
            assert(a.xform =~= r.xform);
            assert(a =~= r);
        } else if slot == "key"@ {
            assert(a.base =~= r.base);
            assert(a.variant =~= r.variant);
            assert(a.have =~= r.have);
            assert(a.xform =~= r.xform);
            assert(a =~= r);
        } else {
            let i0 = slot_index(slot)->Some_0;
            assert(a.base =~= r.base);
            assert(a.variant =~= r.variant) by {
                assert forall|k: int| 0 <= k < 88 implies a.variant[k] == r.variant[k] by {
                    if j != 0 && k == i0 * 4 + j {
                        assert(k / 4 == i0 && k % 4 == j);
                    } else if j != 0 && k / 4 == i0 && k % 4 == j {
                        assert(k == i0 * 4 + j);
                    }
                }
            }
            assert(a.have =~= r.have) by {
                assert forall|k: int| 0 <= k < 88 implies a.have[k] == r.have[k] by {
                    if j != 0 && k == i0 * 4 + j {
                        assert(k / 4 == i0 && k % 4 == j);
                    } else if j != 0 && k / 4 == i0 && k % 4 == j {
                        assert(k == i0 * 4 + j);
                    }
                }
            }
            assert(a.xform =~= r.xform);
            assert(a =~= r);
        }
    }
}

proof fn lemma_then_no_effect(e: Effect)
    requires
        effect_sized(e),
    ensures
        then_effect(e, no_effect()) == e,
{
    assert(then_effect(e, no_effect()) =~= e);
}

/// A refused line is refused whatever the theme it meets, with the same
/// reason.
proof fn lemma_refusal_unchanged(m: ThemeModel, m2: ThemeModel, raw: Seq<char>)
    ensures
        apply_line(m, raw) is Err ==> apply_line(m2, raw) == apply_line(m, raw),
{
}

proof fn lemma_refusals_unchanged(m: ThemeModel, m2: ThemeModel, ls: Seq<Seq<char>>)
    ensures
        parse_lines(m, ls).1 == parse_lines(m2, ls).1,
    decreases ls.len(),
{
    if ls.len() > 0 {
        let l0 = ls.drop_last();
        lemma_refusals_unchanged(m, m2, l0);
        lemma_refusal_unchanged(parse_lines(m, l0).0, parse_lines(m2, l0).0, ls.last());
        lemma_refusal_unchanged(parse_lines(m2, l0).0, parse_lines(m, l0).0, ls.last());
    }
}

proof fn lemma_lines_effect(m: ThemeModel, ls: Seq<Seq<char>>)
    requires
        model_sized(m),
    ensures
        parse_lines(m, ls).0 == apply_effect(m, lines_effect(ls)),
        effect_sized(lines_effect(ls)),
        parse_lines(m, ls).1 is None <==> lines_accepted(ls),
        model_sized(parse_lines(m, ls).0),
    decreases ls.len(),
{
    crate::theme::lemma_parse_lines_refused_at(m, ls);
    if ls.len() == 0 {
        lemma_no_effect(m);
    } else {
        let l0 = ls.drop_last();
        lemma_lines_effect(m, l0);
        let e0 = lines_effect(l0);
        let m1 = parse_lines(m, l0).0;
        if lines_accepted(l0) {
            if line_refused(ls.last()) {
                assert(!lines_accepted(ls)) by {
                    assert(line_refused(ls[ls.len() - 1]));
                }
                crate::theme::lemma_apply_line_refused(m1, ls.last());
                lemma_then_no_effect(e0);
            } else {
                lemma_line_effect(m1, ls.last());
                lemma_then_effect(m, e0, line_effect(ls.last()));
            }
        } else {
            assert(!lines_accepted(ls)) by {
                let k = choose|k: int| 0 <= k < l0.len() && line_refused(#[trigger] l0[k]);
                assert(ls[k] == l0[k]);
            }
        }
    }
}

/// Reading a theme text a second time changes nothing: the theme stays
/// as the first reading left it, and the answer (accepted, or the first
/// refused line and why) is the same. So the built-in theme text that
/// `dump` returns, read over the theme `Theme::new` makes from it, leaves
/// that theme as it is.
pub proof fn lemma_read_twice(m: ThemeModel, text: Seq<char>)
    requires
        model_wf(m),
    ensures
        parse_text(parse_text(m, text).0, text) == parse_text(m, text),
{
    let ls = split_on(text, '\n');
    let e = lines_effect(ls);
    lemma_lines_effect(m, ls);
    let m1 = parse_lines(m, ls).0;
    lemma_lines_effect(m1, ls);
    lemma_effect_twice(m, e);
    lemma_refusals_unchanged(m1, m, ls);
}

} // verus!
