//! Where themes are looked for, and what the environment says about the
//! terminal's colours. The caller reads the environment and the disk; the
//! decisions are made here from the values it read.

use vstd::prelude::*;
use crate::style::ColorMode;
use crate::text::{
    chars_to_string, contains_char, ends_with_str, push_all, push_str, split_chars, split_on,
    str_chars, string_of, sub_chars,
};

verus! {

broadcast use vstd::seq_lib::group_seq_properties;

/// At most this many entries of the theme path variable are used, so that
/// a long one cannot push out the built-in fallback locations.
pub const THEME_ENV_MAX: usize = 9;

/// Whether `p` occurs in `s` as a contiguous run.
pub open spec fn has_sub(s: Seq<char>, p: Seq<char>) -> bool {
    exists|i: int| 0 <= i && i + p.len() <= s.len() && #[trigger] s.subrange(i, i + p.len()) == p
}

pub fn contains_str(s: &[char], p: &str) -> (b: bool)
    ensures
        b == has_sub(s@, p@),
{
    let pv = str_chars(p);
    let n = pv.len();
    if n > s.len() {
        assert(!has_sub(s@, p@)) by {
            assert forall|i: int| !(0 <= i && i + p@.len() <= s@.len() && #[trigger] s@.subrange(i, i + p@.len()) == p@) by {}
        }
        return false;
    }
    if n == 0 {
        assert(s@.subrange(0int, 0int + p@.len()) =~= p@);
        assert(has_sub(s@, p@));
        return true;
    }
    let mut i: usize = 0;
    while i <= s.len() - n
        invariant
            pv@ == p@,
            n == p@.len(),
            n >= 1,
            n <= s@.len(),
            i <= s@.len() - n + 1,
            forall|k: int| 0 <= k < i ==> #[trigger] s@.subrange(k, k + n) != p@,
        decreases s@.len() + 1 - i,
    {
        let piece = crate::text::sub_chars(s, i, i + n);
        if crate::text::eq_chars(piece.as_slice(), pv.as_slice()) {
            return true;
        }
        i += 1;
    }
    assert(!has_sub(s@, p@)) by {
        assert forall|k: int| !(0 <= k && k + p@.len() <= s@.len() && #[trigger] s@.subrange(k, k + p@.len()) == p@) by {
            if 0 <= k && k + p@.len() <= s@.len() {
                assert(k < i);
            }
        }
    }
    false
}

/// The colour capability the environment announces: `NO_COLOR` set turns
/// colour off; a `COLORTERM` naming `truecolor` or `24bit` means true
/// colour; otherwise `TERM` decides (empty or `dumb`: none, `direct`: true
/// colour, `256color`: 256 colours, anything else: 16).
pub open spec fn spec_env_color_mode(
    no_color: bool,
    colorterm: Option<Seq<char>>,
    term: Option<Seq<char>>,
) -> ColorMode {
    let t = match term {
        Some(t) => t,
        None => Seq::empty(),
    };
    if no_color {
        ColorMode::NoColor
    } else if colorterm matches Some(ct) && (has_sub(ct, "truecolor"@) || has_sub(ct, "24bit"@)) {
        ColorMode::TrueColor
    } else if t.len() == 0 || t == "dumb"@ {
        ColorMode::NoColor
    } else if has_sub(t, "direct"@) {
        ColorMode::TrueColor
    } else if has_sub(t, "256color"@) {
        ColorMode::C256
    } else {
        ColorMode::C16
    }
}

pub fn env_color_mode(no_color: bool, colorterm: Option<&str>, term: Option<&str>) -> (m: ColorMode)
    ensures
        m == spec_env_color_mode(
            no_color,
            match colorterm {
                Some(c) => Some(c@),
                None => None,
            },
            match term {
                Some(t) => Some(t@),
                None => None,
            },
        ),
{
    if no_color {
        return ColorMode::NoColor;
    }
    if let Some(ct) = colorterm {
        let v = str_chars(ct);
        if contains_str(v.as_slice(), "truecolor") || contains_str(v.as_slice(), "24bit") {
            return ColorMode::TrueColor;
        }
    }
    let t = match term {
        Some(t) => str_chars(t),
        None => Vec::new(),
    };
    if t.len() == 0 || crate::text::eq_str(t.as_slice(), "dumb") {
        return ColorMode::NoColor;
    }
    if contains_str(t.as_slice(), "direct") {
        return ColorMode::TrueColor;
    }
    if contains_str(t.as_slice(), "256color") {
        return ColorMode::C256;
    }
    ColorMode::C16
}

/// The non-empty pieces of `ps`, in order.
pub open spec fn nonempty_pieces(ps: Seq<Seq<char>>) -> Seq<Seq<char>>
    decreases ps.len(),
{
    if ps.len() == 0 {
        Seq::empty()
    } else if ps.last().len() > 0 {
        nonempty_pieces(ps.drop_last()).push(ps.last())
    } else {
        nonempty_pieces(ps.drop_last())
    }
}

/// Directories searched for named themes, most specific first: the first
/// `THEME_ENV_MAX` entries of the theme path variable (empty entries
/// skipped); the user's configuration directory (from `XDG_CONFIG_HOME`
/// when it is set -- an empty one adds nothing -- else from `HOME`);
/// `themes`; and the installed themes directory.
pub open spec fn spec_theme_dirs(
    env_path: Option<Seq<char>>,
    xdg: Option<Seq<char>>,
    home: Option<Seq<char>>,
    installed: Seq<char>,
) -> Seq<Seq<char>> {
    let from_env = match env_path {
        Some(e) => if e.len() > 0 {
            let ps = split_on(e, ':');
            nonempty_pieces(
                ps.take(
                    if ps.len() > THEME_ENV_MAX {
                        THEME_ENV_MAX as int
                    } else {
                        ps.len() as int
                    },
                ),
            )
        } else {
            Seq::empty()
        },
        None => Seq::empty(),
    };
    let user = match xdg {
        Some(x) => if x.len() > 0 {
            seq![x + "/gbcalc/themes"@]
        } else {
            Seq::empty()
        },
        None => match home {
            Some(h) => if h.len() > 0 {
                seq![h + "/.config/gbcalc/themes"@]
            } else {
                Seq::empty()
            },
            None => Seq::empty(),
        },
    };
    from_env + user + seq!["themes"@, installed]
}

proof fn lemma_nonempty_len(ps: Seq<Seq<char>>)
    ensures
        nonempty_pieces(ps).len() <= ps.len(),
        forall|i: int| 0 <= i < nonempty_pieces(ps).len() ==> #[trigger] nonempty_pieces(ps)[i].len() > 0,
    decreases ps.len(),
{
    if ps.len() > 0 {
        lemma_nonempty_len(ps.drop_last());
    }
}

/// Whatever the environment holds, the theme path variable contributes at
/// most `THEME_ENV_MAX` entries, none of them empty, and the last two
/// places searched are always `themes` and the installed directory.
pub proof fn lemma_fallbacks_kept(
    env_path: Option<Seq<char>>,
    xdg: Option<Seq<char>>,
    home: Option<Seq<char>>,
    installed: Seq<char>,
)
    ensures
        ({
            let d = spec_theme_dirs(env_path, xdg, home, installed);
            &&& 2 <= d.len() <= THEME_ENV_MAX + 3
            &&& d[d.len() - 2] == "themes"@
            &&& d[d.len() - 1] == installed
            &&& forall|i: int| 0 <= i < d.len() - 2 ==> #[trigger] d[i].len() > 0
        }),
{
    reveal_strlit("/gbcalc/themes");
    reveal_strlit("/.config/gbcalc/themes");
    let d = spec_theme_dirs(env_path, xdg, home, installed);
    let from_env = match env_path {
        Some(e) => if e.len() > 0 {
            let ps = split_on(e, ':');
            nonempty_pieces(
                ps.take(
                    if ps.len() > THEME_ENV_MAX {
                        THEME_ENV_MAX as int
                    } else {
                        ps.len() as int
                    },
                ),
            )
        } else {
            Seq::empty()
        },
        None => Seq::empty(),
    };
    match env_path {
        Some(e) => if e.len() > 0 {
            let ps = split_on(e, ':');
            lemma_nonempty_len(
                ps.take(
                    if ps.len() > THEME_ENV_MAX {
                        THEME_ENV_MAX as int
                    } else {
                        ps.len() as int
                    },
                ),
            );
        },
        None => {},
    }
    assert(from_env.len() <= THEME_ENV_MAX);
    let user = match xdg {
        Some(x) => if x.len() > 0 {
            seq![x + "/gbcalc/themes"@]
        } else {
            Seq::empty()
        },
        None => match home {
            Some(h) => if h.len() > 0 {
                seq![h + "/.config/gbcalc/themes"@]
            } else {
                Seq::empty()
            },
            None => Seq::empty(),
        },
    };
    assert(d == from_env + user + seq!["themes"@, installed]);
    assert forall|i: int| 0 <= i < d.len() - 2 implies #[trigger] d[i].len() > 0 by {
        if i < from_env.len() {
            assert(d[i] == from_env[i]);
        } else {
            assert(d[i] == user[i - from_env.len()]);
        }
    }
}

pub open spec fn opt_view(o: Option<&str>) -> Option<Seq<char>> {
    match o {
        Some(s) => Some(s@),
        None => None,
    }
}

fn concat_string(a: &str, b: &str) -> (r: String)
    ensures
        r@ == a@ + b@,
{
    let mut v = str_chars(a);
    push_str(&mut v, b);
    chars_to_string(v.as_slice())
}

pub fn theme_dirs(
    env_path: Option<&str>,
    xdg: Option<&str>,
    home: Option<&str>,
    installed: &str,
) -> (dirs: Vec<String>)
    ensures
        dirs@.map_values(|d: String| d@) == spec_theme_dirs(
            opt_view(env_path),
            opt_view(xdg),
            opt_view(home),
            installed@,
        ),
{
    let mut dirs: Vec<String> = Vec::new();
    if let Some(env) = env_path {
        let ev = str_chars(env);
        if ev.len() > 0 {
            let ps = split_chars(ev.as_slice(), ':');
            let ghost pv = ps.deep_view();
            let lim = if ps.len() > THEME_ENV_MAX {
                THEME_ENV_MAX
            } else {
                ps.len()
            };
            let mut i: usize = 0;
            while i < lim
                invariant
                    pv == ps.deep_view(),
                    pv.len() == ps@.len(),
                    lim <= ps@.len(),
                    i <= lim,
                    dirs@.map_values(|d: String| d@) == nonempty_pieces(pv.take(i as int)),
                decreases lim - i,
            {
                assert(pv.take(i + 1).drop_last() == pv.take(i as int));
                assert(pv[i as int] == ps@[i as int]@);
                if ps[i].len() > 0 {
                    let ghost before = dirs@.map_values(|d: String| d@);
                    dirs.push(chars_to_string(ps[i].as_slice()));
                    assert(dirs@.map_values(|d: String| d@) =~= before.push(pv[i as int]));
                }
                i += 1;
            }
        }
    }
    let ghost env_part = dirs@.map_values(|d: String| d@);
    match xdg {
        Some(x) => {
            if !x.is_empty() {
                dirs.push(concat_string(x, "/gbcalc/themes"));
            }
        },
        None => {
            if let Some(h) = home {
                if !h.is_empty() {
                    dirs.push(concat_string(h, "/.config/gbcalc/themes"));
                }
            }
        },
    }
    dirs.push(string_of("themes"));
    dirs.push(string_of(installed));
    assert(dirs@.map_values(|d: String| d@) =~= spec_theme_dirs(
        opt_view(env_path),
        opt_view(xdg),
        opt_view(home),
        installed@,
    ));
    dirs
}

/// The user's default theme file: under `XDG_CONFIG_HOME` when it is set
/// and not empty, else under `HOME` when that is, else none.
pub open spec fn spec_user_theme_path(xdg: Option<Seq<char>>, home: Option<Seq<char>>) -> Option<
    Seq<char>,
> {
    match (xdg, home) {
        (Some(x), _) if x.len() > 0 => Some(x + "/gbcalc/theme.conf"@),
        (_, Some(h)) if h.len() > 0 => Some(h + "/.config/gbcalc/theme.conf"@),
        _ => None,
    }
}

pub fn user_theme_path(xdg: Option<&str>, home: Option<&str>) -> (r: Option<String>)
    ensures
        match r {
            Some(p) => spec_user_theme_path(opt_view(xdg), opt_view(home)) == Some(p@),
            None => spec_user_theme_path(opt_view(xdg), opt_view(home)) is None,
        },
{
    if let Some(x) = xdg {
        if !x.is_empty() {
            return Some(concat_string(x, "/gbcalc/theme.conf"));
        }
    }
    if let Some(h) = home {
        if !h.is_empty() {
            return Some(concat_string(h, "/.config/gbcalc/theme.conf"));
        }
    }
    None
}

/// How a theme name is resolved.
#[derive(Clone, Copy, PartialEq, Eq, Debug, Structural)]
pub enum ThemeRef {
    /// It names a file: it contains `/` or ends in `.conf`.
    Path,
    /// It is longer than 128 bytes.
    TooLong,
    /// Look for `<dir>/<name>.conf` along the search path.
    Search,
}

pub open spec fn spec_theme_ref(name: &str) -> ThemeRef {
    if name@.contains('/') || (".conf"@.len() <= name@.len() && name@.skip(
        name@.len() - ".conf"@.len(),
    ) == ".conf"@) {
        ThemeRef::Path
    } else if name.len() > 128 {
        ThemeRef::TooLong
    } else {
        ThemeRef::Search
    }
}

pub fn theme_ref(name: &str) -> (r: ThemeRef)
    ensures
        r == spec_theme_ref(name),
{
    let v = str_chars(name);
    if contains_char(v.as_slice(), '/') || ends_with_str(v.as_slice(), ".conf") {
        return ThemeRef::Path;
    }
    if name.len() > 128 {
        return ThemeRef::TooLong;
    }
    ThemeRef::Search
}

/// The file a named theme would be in, in directory `dir`.
pub fn theme_file_path(dir: &str, name: &str) -> (p: String)
    ensures
        p@ == dir@ + "/"@ + name@ + ".conf"@,
{
    let mut v = str_chars(dir);
    push_str(&mut v, "/");
    push_str(&mut v, name);
    push_str(&mut v, ".conf");
    assert(v@ =~= dir@ + "/"@ + name@ + ".conf"@);
    chars_to_string(v.as_slice())
}

/// The user's configuration directory: `$XDG_CONFIG_HOME/gbcalc` when that
/// is set and not empty, else `$HOME/.config/gbcalc` when that is, else
/// none.
pub open spec fn spec_config_dir(xdg: Option<Seq<char>>, home: Option<Seq<char>>) -> Option<
    Seq<char>,
> {
    match (xdg, home) {
        (Some(x), _) if x.len() > 0 => Some(x + "/gbcalc"@),
        (_, Some(h)) if h.len() > 0 => Some(h + "/.config/gbcalc"@),
        _ => None,
    }
}

pub fn config_dir(xdg: Option<&str>, home: Option<&str>) -> (r: Option<String>)
    ensures
        match r {
            Some(p) => spec_config_dir(opt_view(xdg), opt_view(home)) == Some(p@),
            None => spec_config_dir(opt_view(xdg), opt_view(home)) is None,
        },
{
    if let Some(x) = xdg {
        if !x.is_empty() {
            return Some(concat_string(x, "/gbcalc"));
        }
    }
    if let Some(h) = home {
        if !h.is_empty() {
            return Some(concat_string(h, "/.config/gbcalc"));
        }
    }
    None
}

/// The history file's text: one line per calculation, oldest first, each
/// ended by a newline.
pub open spec fn history_file(h: Seq<Seq<char>>) -> Seq<char>
    decreases h.len(),
{
    if h.len() == 0 {
        Seq::empty()
    } else {
        history_file(h.drop_last()) + h.last() + seq!['\n']
    }
}

pub fn history_file_text(h: &Vec<String>) -> (t: String)
    ensures
        t@ == history_file(h@.map_values(|s: String| s@)),
{
    let ghost hv = h@.map_values(|s: String| s@);
    let mut v: Vec<char> = Vec::new();
    let mut i: usize = 0;
    while i < h.len()
        invariant
            i <= h@.len(),
            hv == h@.map_values(|s: String| s@),
            v@ == history_file(hv.take(i as int)),
        decreases h@.len() - i,
    {
        assert(hv.take(i + 1).drop_last() =~= hv.take(i as int));
        assert(hv.take(i + 1).last() == h@[i as int]@);
        push_str(&mut v, h[i].as_str());
        v.push('\n');
        i += 1;
    }
    assert(hv.take(h@.len() as int) =~= hv);
    chars_to_string(v.as_slice())
}

/// The theme a file in a theme directory holds: its name without `.conf`,
/// when it ends so.
pub open spec fn spec_theme_name_of(file: Seq<char>) -> Option<Seq<char>> {
    if ".conf"@.len() <= file.len() && file.skip(file.len() - ".conf"@.len()) == ".conf"@ {
        Some(file.take(file.len() - ".conf"@.len()))
    } else {
        None
    }
}

pub fn theme_name_of(file: &str) -> (r: Option<String>)
    ensures
        match r {
            Some(n) => spec_theme_name_of(file@) == Some(n@),
            None => spec_theme_name_of(file@) is None,
        },
{
    proof {
        reveal_strlit(".conf");
    }
    let v = str_chars(file);
    if ends_with_str(v.as_slice(), ".conf") {
        let stem = sub_chars(v.as_slice(), 0, v.len() - 5);
        Some(chars_to_string(stem.as_slice()))
    } else {
        None
    }
}

} // verus!
