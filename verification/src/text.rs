//! Character-sequence helpers shared by the theme parser, the number
//! formatter and the terminal layout code.

use vstd::prelude::*;

verus! {

broadcast use vstd::seq_lib::group_seq_properties;

// ------------------------------------------------------------ conversion

/// The characters of `s`, in order.
pub fn str_chars(s: &str) -> (v: Vec<char>)
    ensures
        v@ == s@,
{
    broadcast use vstd::string::group_string_axioms;

    let mut v: Vec<char> = Vec::new();
    for c in it: s.chars()
        invariant
            v@ == it.seq().take(it.index() as int),
    {
        v.push(c);
    }
    v
}

/// Trusted: std's `String::from_iter` over a character slice, which its
/// documentation describes as collecting the characters into a string;
/// the contract claims the string holds exactly these characters, in
/// order.
#[verifier::external_body]
pub(crate) fn chars_to_string(v: &[char]) -> (s: String)
    ensures
        s@ == v@,
{
    String::from_iter(v.iter())
}

/// A copy of `v[from..to]`.
pub fn sub_chars(v: &[char], from: usize, to: usize) -> (r: Vec<char>)
    requires
        from <= to <= v@.len(),
    ensures
        r@ == v@.subrange(from as int, to as int),
{
    let mut r: Vec<char> = Vec::new();
    let mut i = from;
    while i < to
        invariant
            from <= i <= to <= v@.len(),
            r@ == v@.subrange(from as int, i as int),
        decreases to - i,
    {
        r.push(v[i]);
        i += 1;
    }
    r
}

/// Append every character of `src` to `dst`.
pub fn push_all(dst: &mut Vec<char>, src: &[char])
    ensures
        final(dst)@ == old(dst)@ + src@,
{
    let mut i: usize = 0;
    while i < src.len()
        invariant
            i <= src@.len(),
            dst@ == old(dst)@ + src@.take(i as int),
        decreases src@.len() - i,
    {
        dst.push(src[i]);
        i += 1;
    }
}

/// Append the characters of a string slice to `dst`.
pub fn push_str(dst: &mut Vec<char>, s: &str)
    ensures
        final(dst)@ == old(dst)@ + s@,
{
    let v = str_chars(s);
    push_all(dst, v.as_slice());
}

/// Whether `v` holds exactly the characters of `s`.
pub fn eq_str(v: &[char], s: &str) -> (b: bool)
    ensures
        b == (v@ == s@),
{
    let w = str_chars(s);
    eq_chars(v, w.as_slice())
}

/// Whether two character slices are equal.
pub fn eq_chars(a: &[char], b: &[char]) -> (r: bool)
    ensures
        r == (a@ == b@),
{
    if a.len() != b.len() {
        return false;
    }
    let mut i: usize = 0;
    while i < a.len()
        invariant
            a@.len() == b@.len(),
            i <= a@.len(),
            forall|j: int| 0 <= j < i ==> a@[j] == b@[j],
        decreases a@.len() - i,
    {
        if a[i] != b[i] {
            return false;
        }
        i += 1;
    }
    assert(a@ =~= b@);
    true
}

/// Whether `v` begins with the characters of `p`.
pub open spec fn has_prefix(v: Seq<char>, p: Seq<char>) -> bool {
    p.len() <= v.len() && v.take(p.len() as int) == p
}

/// Whether `v` begins with the characters of `s`.
pub fn starts_with_str(v: &[char], s: &str) -> (b: bool)
    ensures
        b == has_prefix(v@, s@),
{
    let p = str_chars(s);
    if p.len() > v.len() {
        return false;
    }
    let head = sub_chars(v, 0, p.len());
    eq_chars(head.as_slice(), p.as_slice())
}

/// Whether `v` ends with the characters of `s`.
pub fn ends_with_str(v: &[char], s: &str) -> (b: bool)
    ensures
        b == (s@.len() <= v@.len() && v@.skip(v@.len() - s@.len()) == s@),
{
    let p = str_chars(s);
    if p.len() > v.len() {
        return false;
    }
    let tail = sub_chars(v, v.len() - p.len(), v.len());
    eq_chars(tail.as_slice(), p.as_slice())
}

/// Whether `c` occurs in `v`.
pub fn contains_char(v: &[char], c: char) -> (b: bool)
    ensures
        b == v@.contains(c),
{
    let mut i: usize = 0;
    while i < v.len()
        invariant
            i <= v@.len(),
            forall|j: int| 0 <= j < i ==> v@[j] != c,
        decreases v@.len() - i,
    {
        if v[i] == c {
            return true;
        }
        i += 1;
    }
    false
}


/// A copy of a string slice as an owned string.
pub fn string_of(s: &str) -> (r: String)
    ensures
        r@ == s@,
{
    s.to_owned()
}

/// `v` without the prefix `s`, if `v` begins with it.
pub fn strip_prefix_str(v: &[char], s: &str) -> (r: Option<Vec<char>>)
    ensures
        r is Some <==> has_prefix(v@, s@),
        r matches Some(t) ==> t@ == v@.skip(s@.len() as int),
{
    let p = str_chars(s);
    if p.len() > v.len() {
        return None;
    }
    let head = sub_chars(v, 0, p.len());
    if eq_chars(head.as_slice(), p.as_slice()) {
        Some(sub_chars(v, p.len(), v.len()))
    } else {
        None
    }
}

/// Whether `v` ends with `p`.
pub open spec fn has_suffix(v: Seq<char>, p: Seq<char>) -> bool {
    p.len() <= v.len() && v.skip(v.len() - p.len()) == p
}

// ------------------------------------------------------------ splitting

/// Pieces completed so far when cutting `t` at every `sep`, and the piece
/// in progress.
pub open spec fn split_acc(t: Seq<char>, sep: char) -> (Seq<Seq<char>>, Seq<char>)
    decreases t.len(),
{
    if t.len() == 0 {
        (Seq::empty(), Seq::empty())
    } else {
        let (ls, cur) = split_acc(t.drop_last(), sep);
        if t.last() == sep {
            (ls.push(cur), Seq::empty())
        } else {
            (ls, cur.push(t.last()))
        }
    }
}

/// `t` cut at every occurrence of `sep` (what `str::split` yields): always
/// at least one piece, and one more than there are separators.
pub open spec fn split_on(t: Seq<char>, sep: char) -> Seq<Seq<char>> {
    let (ls, cur) = split_acc(t, sep);
    ls.push(cur)
}

proof fn lemma_split_acc_join(a: Seq<char>, b: Seq<char>, sep: char)
    ensures
        split_acc(a + seq![sep] + b, sep) == (split_on(a, sep) + split_acc(b, sep).0, split_acc(
            b,
            sep,
        ).1),
    decreases b.len(),
{
    let t = a + seq![sep] + b;
    if b.len() == 0 {
        assert(t.drop_last() =~= a);
        assert(split_acc(b, sep) == (Seq::<Seq<char>>::empty(), Seq::<char>::empty()));
        assert(split_on(a, sep) + Seq::<Seq<char>>::empty() =~= split_on(a, sep));
    } else {
        let b1 = b.drop_last();
        lemma_split_acc_join(a, b1, sep);
        assert(t.drop_last() =~= a + seq![sep] + b1);
        assert(t.last() == b.last());
        let (l1, c1) = split_acc(b1, sep);
        if b.last() == sep {
            assert((split_on(a, sep) + l1).push(c1) =~= split_on(a, sep) + l1.push(c1));
        }
    }
}

/// Cutting two texts joined by the separator gives the pieces of the
/// first followed by those of the second.
pub proof fn lemma_split_join(a: Seq<char>, b: Seq<char>, sep: char)
    ensures
        split_on(a + seq![sep] + b, sep) == split_on(a, sep) + split_on(b, sep),
{
    lemma_split_acc_join(a, b, sep);
    let (l, c) = split_acc(b, sep);
    assert((split_on(a, sep) + l).push(c) =~= split_on(a, sep) + l.push(c));
}

pub fn split_chars(t: &[char], sep: char) -> (r: Vec<Vec<char>>)
    ensures
        r.deep_view() == split_on(t@, sep),
{
    let mut ls: Vec<Vec<char>> = Vec::new();
    let mut cur: Vec<char> = Vec::new();
    let mut i: usize = 0;
    while i < t.len()
        invariant
            i <= t@.len(),
            (ls.deep_view(), cur@) == split_acc(t@.take(i as int), sep),
        decreases t@.len() - i,
    {
        assert(t@.take(i + 1).drop_last() == t@.take(i as int));
        let c = t[i];
        if c == sep {
            let ghost prev = ls.deep_view();
            let done = cur;
            assert(done.deep_view() =~= done@);
            ls.push(done);
            cur = Vec::new();
            assert(ls.deep_view() =~= prev.push(done@));
        } else {
            cur.push(c);
        }
        i += 1;
    }
    assert(t@.take(t@.len() as int) == t@);
    let ghost prev = ls.deep_view();
    let ghost last = cur@;
    assert(cur.deep_view() =~= cur@);
    ls.push(cur);
    assert(ls.deep_view() =~= prev.push(last));
    ls
}

/// The separators `split_first` and the text directives trim: space, tab
/// and carriage return.
pub open spec fn is_sep(c: char) -> bool {
    c == ' ' || c == '\t' || c == '\r'
}

/// `s` without its leading separators.
pub open spec fn trim_start_sep(s: Seq<char>) -> Seq<char>
    decreases s.len(),
{
    if s.len() > 0 && is_sep(s[0]) {
        trim_start_sep(s.drop_first())
    } else {
        s
    }
}

/// `s` without its trailing separators.
pub open spec fn trim_end_sep(s: Seq<char>) -> Seq<char>
    decreases s.len(),
{
    if s.len() > 0 && is_sep(s.last()) {
        trim_end_sep(s.drop_last())
    } else {
        s
    }
}

/// Index of the first separator in `s`, or its length when there is none.
pub open spec fn sep_index(s: Seq<char>) -> int
    decreases s.len(),
{
    if s.len() == 0 {
        0
    } else if is_sep(s[0]) {
        0
    } else {
        1 + sep_index(s.drop_first())
    }
}

proof fn lemma_trim_start_skip(s: Seq<char>, i: int)
    requires
        0 <= i <= s.len(),
        forall|j: int| 0 <= j < i ==> is_sep(s[j]),
    ensures
        trim_start_sep(s) == trim_start_sep(s.skip(i)),
    decreases i,
{
    if i > 0 {
        assert(s.skip(1) == s.drop_first());
        lemma_trim_start_skip(s.drop_first(), i - 1);
        assert(s.drop_first().skip(i - 1) == s.skip(i));
    } else {
        assert(s.skip(0) == s);
    }
}

proof fn lemma_sep_index_skip(s: Seq<char>, i: int)
    requires
        0 <= i <= s.len(),
        forall|j: int| 0 <= j < i ==> !is_sep(s[j]),
    ensures
        sep_index(s) == i + sep_index(s.skip(i)),
    decreases i,
{
    if i > 0 {
        lemma_sep_index_skip(s.drop_first(), i - 1);
        assert(s.drop_first().skip(i - 1) == s.skip(i));
    } else {
        assert(s.skip(0) == s);
    }
}

proof fn lemma_sep_index_bound(s: Seq<char>)
    ensures
        0 <= sep_index(s) <= s.len(),
    decreases s.len(),
{
    if s.len() > 0 && !is_sep(s[0]) {
        lemma_sep_index_bound(s.drop_first());
    }
}

/// Position of the first character that is not a separator.
pub fn skip_seps(s: &[char], from: usize) -> (i: usize)
    requires
        from <= s@.len(),
    ensures
        from <= i <= s@.len(),
        trim_start_sep(s@.skip(from as int)) == s@.skip(i as int),
{
    let mut i = from;
    while i < s.len() && (s[i] == ' ' || s[i] == '\t' || s[i] == '\r')
        invariant
            from <= i <= s@.len(),
            trim_start_sep(s@.skip(from as int)) == trim_start_sep(s@.skip(i as int)),
        decreases s@.len() - i,
    {
        assert(s@.skip(i as int).drop_first() == s@.skip(i + 1));
        i += 1;
    }
    i
}

/// `s` without its trailing separators.
pub fn trim_end_seps(s: &[char]) -> (r: Vec<char>)
    ensures
        r@ == trim_end_sep(s@),
{
    let mut n = s.len();
    while n > 0 && (s[n - 1] == ' ' || s[n - 1] == '\t' || s[n - 1] == '\r')
        invariant
            n <= s@.len(),
            trim_end_sep(s@) == trim_end_sep(s@.take(n as int)),
        decreases n,
    {
        assert(s@.take(n as int).drop_last() == s@.take(n - 1));
        n -= 1;
    }
    assert(trim_end_sep(s@.take(n as int)) == s@.take(n as int));
    sub_chars(s, 0, n)
}

/// The first separator-delimited token of `line`, and the rest of the line
/// after it with leading separators trimmed.
pub open spec fn split_first(line: Seq<char>) -> (Seq<char>, Seq<char>) {
    let l = trim_start_sep(line);
    let j = sep_index(l);
    (l.take(j), trim_start_sep(l.skip(j)))
}

pub fn split_first_token(line: &[char]) -> (r: (Vec<char>, Vec<char>))
    ensures
        (r.0@, r.1@) == split_first(line@),
{
    let start = skip_seps(line, 0);
    assert(line@.skip(0) == line@);
    let ghost l = line@.skip(start as int);
    let mut j = start;
    while j < line.len() && !(line[j] == ' ' || line[j] == '\t' || line[j] == '\r')
        invariant
            start <= j <= line@.len(),
            l == line@.skip(start as int),
            forall|k: int| 0 <= k < j - start ==> !is_sep(#[trigger] l[k]),
        decreases line@.len() - j,
    {
        j += 1;
    }
    proof {
        lemma_sep_index_skip(l, j - start);
        assert(l.skip(j - start) == line@.skip(j as int));
        lemma_sep_index_bound(l.skip(j - start));
        if j < line@.len() {
            assert(is_sep(line@.skip(j as int)[0]));
        }
        assert(sep_index(l) == j - start);
    }
    let tok = sub_chars(line, start, j);
    assert(tok@ == l.take(j - start));
    let rs = skip_seps(line, j);
    let rest = sub_chars(line, rs, line.len());
    assert(rest@ == line@.skip(rs as int));
    (tok, rest)
}

// ------------------------------------------------------------ whitespace

/// Unicode `White_Space`, as `char::is_whitespace` decides it.
pub open spec fn is_ws(c: char) -> bool {
    let u = c as u32;
    ||| 9 <= u <= 13
    ||| u == 32
    ||| u == 0x85
    ||| u == 0xA0
    ||| u == 0x1680
    ||| 0x2000 <= u <= 0x200A
    ||| u == 0x2028
    ||| u == 0x2029
    ||| u == 0x202F
    ||| u == 0x205F
    ||| u == 0x3000
}

pub fn is_whitespace(c: char) -> (b: bool)
    ensures
        b == is_ws(c),
{
    let u = c as u32;
    (9 <= u && u <= 13) || u == 32 || u == 0x85 || u == 0xA0 || u == 0x1680 || (0x2000 <= u && u
        <= 0x200A) || u == 0x2028 || u == 0x2029 || u == 0x202F || u == 0x205F || u == 0x3000
}

/// Maximal runs of non-whitespace seen so far, and the run in progress.
pub open spec fn words_acc(s: Seq<char>) -> (Seq<Seq<char>>, Seq<char>)
    decreases s.len(),
{
    if s.len() == 0 {
        (Seq::empty(), Seq::empty())
    } else {
        let (ws, cur) = words_acc(s.drop_last());
        if is_ws(s.last()) {
            if cur.len() > 0 {
                (ws.push(cur), Seq::empty())
            } else {
                (ws, cur)
            }
        } else {
            (ws, cur.push(s.last()))
        }
    }
}

/// The whitespace-separated words of `s` (what `split_whitespace` yields).
pub open spec fn words(s: Seq<char>) -> Seq<Seq<char>> {
    let (ws, cur) = words_acc(s);
    if cur.len() > 0 {
        ws.push(cur)
    } else {
        ws
    }
}

/// The first word of `s`, if there is one.
pub open spec fn first_word(s: Seq<char>) -> Option<Seq<char>> {
    if words(s).len() > 0 {
        Some(words(s)[0])
    } else {
        None
    }
}

pub fn split_words(s: &[char]) -> (r: Vec<Vec<char>>)
    ensures
        r.deep_view() == words(s@),
{
    let mut ws: Vec<Vec<char>> = Vec::new();
    let mut cur: Vec<char> = Vec::new();
    let mut i: usize = 0;
    while i < s.len()
        invariant
            i <= s@.len(),
            (ws.deep_view(), cur@) == words_acc(s@.take(i as int)),
        decreases s@.len() - i,
    {
        assert(s@.take(i + 1).drop_last() == s@.take(i as int));
        let c = s[i];
        if is_whitespace(c) {
            if cur.len() > 0 {
                let ghost prev = ws.deep_view();
                let done = cur;
                assert(done.deep_view() =~= done@);
                ws.push(done);
                cur = Vec::new();
                assert(ws.deep_view() =~= prev.push(done@));
            }
        } else {
            cur.push(c);
        }
        i += 1;
    }
    assert(s@.take(s@.len() as int) == s@);
    if cur.len() > 0 {
        let ghost prev = ws.deep_view();
        let ghost last = cur@;
        assert(cur.deep_view() =~= cur@);
        ws.push(cur);
        assert(ws.deep_view() =~= prev.push(last));
    }
    ws
}

// ------------------------------------------------------------ decimal

/// The character of a decimal digit.
pub open spec fn digit_char(d: nat) -> char {
    (48 + d) as char
}

/// Decimal representation of `n`, most significant digit first.
pub open spec fn dec_chars(n: nat) -> Seq<char>
    decreases n,
{
    if n < 10 {
        seq![digit_char(n)]
    } else {
        dec_chars(n / 10).push(digit_char(n % 10))
    }
}

fn digit_to_char(d: u64) -> (c: char)
    requires
        d < 10,
    ensures
        c == digit_char(d as nat),
{
    let b: u8 = 48u8 + (d as u8);
    b as char
}

/// Append the decimal representation of `n`.
pub fn push_dec(dst: &mut Vec<char>, n: u64)
    ensures
        final(dst)@ == old(dst)@ + dec_chars(n as nat),
    decreases n,
{
    if n >= 10 {
        push_dec(dst, n / 10);
    }
    let c = digit_to_char(n % 10);
    dst.push(c);
}

} // verus!
