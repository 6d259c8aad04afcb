//! The inline tokenizer: splits one display line into styled segments.
//!
//! The scan runs left to right with no backtracking and no nesting. An
//! opening `**`, `*` or `` ` `` pairs with the next occurrence of the same
//! marker; when none follows, the rest of the line is plain text, joined to
//! the plain run just before the opener (so an unclosed marker after plain
//! text leaves one plain segment). A line that starts with a run of `#`
//! followed by a space is a header.

use vstd::prelude::*;

verus! {

/// How a run of text is painted.
#[derive(Clone, Copy, Debug, PartialEq, Eq, Structural)]
pub enum Style {
    Plain,
    Bold,
    Italic,
    Code,
    HeaderBold,
}

/// A run of text of one line with the style to paint it in.
#[derive(Clone, Debug)]
pub struct StyledSegment {
    pub text: String,
    pub style: Style,
}

/// The text and style of each segment.
pub open spec fn segments_view(v: Seq<StyledSegment>) -> Seq<(Seq<char>, Style)> {
    v.map_values(|g: StyledSegment| (g.text@, g.style))
}

pub open spec fn is_special(c: char) -> bool {
    c == '*' || c == '`' || c == '#'
}

/// Index of the first `c` at or after `i`, or -1.
pub open spec fn find_char_from(s: Seq<char>, i: int, c: char) -> int
    decreases s.len() - i,
{
    if i < 0 || i >= s.len() {
        -1
    } else if s[i] == c {
        i
    } else {
        find_char_from(s, i + 1, c)
    }
}

/// Index of the first `**` that starts at or after `i`, or -1.
pub open spec fn find_pair_from(s: Seq<char>, i: int) -> int
    decreases s.len() - i,
{
    if i < 0 || i + 1 >= s.len() {
        -1
    } else if s[i] == '*' && s[i + 1] == '*' {
        i
    } else {
        find_pair_from(s, i + 1)
    }
}

/// Index of the first marker character at or after `i`, or the length.
pub open spec fn special_from(s: Seq<char>, i: int) -> int
    decreases s.len() - i,
{
    if i < 0 || i >= s.len() {
        s.len() as int
    } else if is_special(s[i]) {
        i
    } else {
        special_from(s, i + 1)
    }
}

/// Index of the first character at or after `i` that is not `#`, or the length.
pub open spec fn hash_end(s: Seq<char>, i: int) -> int
    decreases s.len() - i,
{
    if i < 0 || i >= s.len() {
        s.len() as int
    } else if s[i] != '#' {
        i
    } else {
        hash_end(s, i + 1)
    }
}

pub open spec fn plain_rest(s: Seq<char>, i: int) -> Seq<(Seq<char>, Style)> {
    seq![(s.subrange(i, s.len() as int), Style::Plain)]
}

/// Whether the scan, reaching index `k`, stops there with the rest of the
/// line as plain text: an opener with no close, or a `#` run that is not a
/// header prefix.
pub open spec fn stops_plain(s: Seq<char>, k: int) -> bool {
    0 <= k < s.len() && if s[k] == '*' && k + 1 < s.len() && s[k + 1] == '*' {
        find_pair_from(s, k + 2) < 0
    } else if s[k] == '*' || s[k] == '`' {
        find_char_from(s, k + 1, s[k]) < 0
    } else if s[k] == '#' {
        !(hash_end(s, k) < s.len() && s[hash_end(s, k)] == ' ')
    } else {
        false
    }
}

/// The segments of `s` from index `i` on.
pub open spec fn tokens_from(s: Seq<char>, i: int) -> Seq<(Seq<char>, Style)>
    decreases s.len() - i,
    via tokens_from_decreases
{
    if i < 0 || i >= s.len() {
        seq![]
    } else if s[i] == '*' && i + 1 < s.len() && s[i + 1] == '*' {
        let e = find_pair_from(s, i + 2);
        if e < 0 {
            plain_rest(s, i)
        } else {
            seq![(s.subrange(i + 2, e), Style::Bold)] + tokens_from(s, e + 2)
        }
    } else if s[i] == '*' {
        let e = find_char_from(s, i + 1, '*');
        if e < 0 {
            plain_rest(s, i)
        } else {
            seq![(s.subrange(i + 1, e), Style::Italic)] + tokens_from(s, e + 1)
        }
    } else if s[i] == '`' {
        let e = find_char_from(s, i + 1, '`');
        if e < 0 {
            plain_rest(s, i)
        } else {
            seq![(s.subrange(i + 1, e), Style::Code)] + tokens_from(s, e + 1)
        }
    } else if s[i] == '#' {
        let h = hash_end(s, i);
        if h < s.len() && s[h] == ' ' {
            seq![(s.subrange(h + 1, s.len() as int), Style::HeaderBold)]
        } else {
            plain_rest(s, i)
        }
    } else {
        let k = special_from(s, i);
        if stops_plain(s, k) {
            plain_rest(s, i)
        } else {
            seq![(s.subrange(i, k), Style::Plain)] + tokens_from(s, k)
        }
    }
}

/// The segments of a whole line, styled or not.
pub open spec fn line_tokens(s: Seq<char>, styled: bool) -> Seq<(Seq<char>, Style)> {
    if styled {
        tokens_from(s, 0)
    } else if s.len() == 0 {
        seq![]
    } else {
        seq![(s, Style::Plain)]
    }
}

pub proof fn lemma_find_char_bounds(s: Seq<char>, i: int, c: char)
    ensures
        ({
            let r = find_char_from(s, i, c);
            r == -1 || (0 <= i <= r < s.len() && s[r] == c)
        }),
    decreases s.len() - i,
{
    if 0 <= i < s.len() && s[i] != c {
        lemma_find_char_bounds(s, i + 1, c);
    }
}

pub proof fn lemma_find_pair_bounds(s: Seq<char>, i: int)
    ensures
        ({
            let r = find_pair_from(s, i);
            r == -1 || (0 <= i <= r && r + 1 < s.len() && s[r] == '*' && s[r + 1] == '*')
        }),
    decreases s.len() - i,
{
    if 0 <= i && i + 1 < s.len() && !(s[i] == '*' && s[i + 1] == '*') {
        lemma_find_pair_bounds(s, i + 1);
    }
}

pub proof fn lemma_special_bounds(s: Seq<char>, i: int)
    requires
        0 <= i <= s.len(),
    ensures
        i <= special_from(s, i) <= s.len(),
        forall|k: int| i <= k < special_from(s, i) ==> !is_special(#[trigger] s[k]),
        special_from(s, i) < s.len() ==> is_special(s[special_from(s, i)]),
    decreases s.len() - i,
{
    if i < s.len() && !is_special(s[i]) {
        lemma_special_bounds(s, i + 1);
    }
}

pub proof fn lemma_hash_bounds(s: Seq<char>, i: int)
    requires
        0 <= i <= s.len(),
    ensures
        i <= hash_end(s, i) <= s.len(),
        forall|k: int| i <= k < hash_end(s, i) ==> #[trigger] s[k] == '#',
    decreases s.len() - i,
{
    if i < s.len() && s[i] == '#' {
        lemma_hash_bounds(s, i + 1);
    }
}

#[via_fn]
proof fn tokens_from_decreases(s: Seq<char>, i: int) {
    if 0 <= i < s.len() {
        lemma_find_pair_bounds(s, i + 2);
        lemma_find_char_bounds(s, i + 1, '*');
        lemma_find_char_bounds(s, i + 1, '`');
        lemma_special_bounds(s, i);
    }
}

pub(crate) fn find_char_exec(v: &Vec<char>, start: usize, c: char) -> (r: Option<usize>)
    requires
        start <= v.len(),
    ensures
        match r {
            Some(k) => find_char_from(v@, start as int, c) == k as int,
            None => find_char_from(v@, start as int, c) == -1,
        },
{
    let mut j: usize = start;
    while j < v.len()
        invariant
            start <= j <= v.len(),
            find_char_from(v@, j as int, c) == find_char_from(v@, start as int, c),
        decreases v.len() - j,
    {
        if v[j] == c {
            return Some(j);
        }
        j += 1;
    }
    None
}

fn find_pair_exec(v: &Vec<char>, start: usize) -> (r: Option<usize>)
    requires
        start <= v.len(),
    ensures
        match r {
            Some(k) => find_pair_from(v@, start as int) == k as int,
            None => find_pair_from(v@, start as int) == -1,
        },
{
    let mut j: usize = start;
    while j < v.len() && j + 1 < v.len()
        invariant
            start <= j <= v.len(),
            find_pair_from(v@, j as int) == find_pair_from(v@, start as int),
        decreases v.len() - j,
    {
        if v[j] == '*' && v[j + 1] == '*' {
            return Some(j);
        }
        j += 1;
    }
    None
}

fn special_exec(v: &Vec<char>, start: usize) -> (r: usize)
    requires
        start <= v.len(),
    ensures
        r as int == special_from(v@, start as int),
{
    let mut j: usize = start;
    while j < v.len()
        invariant
            start <= j <= v.len(),
            special_from(v@, j as int) == special_from(v@, start as int),
        decreases v.len() - j,
    {
        if v[j] == '*' || v[j] == '`' || v[j] == '#' {
            return j;
        }
        j += 1;
    }
    j
}

fn hash_end_exec(v: &Vec<char>, start: usize) -> (r: usize)
    requires
        start <= v.len(),
    ensures
        r as int == hash_end(v@, start as int),
{
    let mut j: usize = start;
    while j < v.len()
        invariant
            start <= j <= v.len(),
            hash_end(v@, j as int) == hash_end(v@, start as int),
        decreases v.len() - j,
    {
        if v[j] != '#' {
            return j;
        }
        j += 1;
    }
    j
}

fn stops_plain_exec(v: &Vec<char>, k: usize) -> (r: bool)
    requires
        k <= v.len(),
    ensures
        r == stops_plain(v@, k as int),
{
    let n = v.len();
    if k >= n {
        return false;
    }
    if v[k] == '*' && k + 1 < n && v[k + 1] == '*' {
        find_pair_exec(v, k + 2).is_none()
    } else if v[k] == '*' || v[k] == '`' {
        find_char_exec(v, k + 1, v[k]).is_none()
    } else if v[k] == '#' {
        let h = hash_end_exec(v, k);
        !(h < n && v[h] == ' ')
    } else {
        false
    }
}

fn segment(line: &str, from: usize, to: usize, style: Style) -> (g: StyledSegment)
    requires
        from <= to <= line@.len(),
    ensures
        g.text@ == line@.subrange(from as int, to as int),
        g.style == style,
{
    StyledSegment { text: line.substring_char(from, to).to_owned(), style }
}

/// Splits `line` into styled segments. With `styled` false the line is one
/// plain segment (none when it is empty); with `styled` true the inline
/// markers are paired and consumed as described in this module's header.
pub fn tokenize_line(line: &str, styled: bool) -> (r: Vec<StyledSegment>)
    ensures
        segments_view(r@) == line_tokens(line@, styled),
{
    let v = crate::text::chars_of(line);
    let n = v.len();
    let mut out: Vec<StyledSegment> = Vec::new();
    if !styled {
        if n > 0 {
            out.push(segment(line, 0, n, Style::Plain));
            assert(line@.subrange(0, n as int) == line@);
            assert(segments_view(out@) =~= line_tokens(line@, styled));
        }
        return out;
    }
    let ghost s = line@;
    let mut i: usize = 0;
    while i < n
        invariant
            v@ == s,
            s == line@,
            n == s.len(),
            i <= n,
            segments_view(out@) + tokens_from(s, i as int) == tokens_from(s, 0),
        decreases n - i,
    {
        let ghost before = segments_view(out@);
        let ghost rest = tokens_from(s, i as int);
        if v[i] == '*' && i + 1 < n && v[i + 1] == '*' {
            match find_pair_exec(&v, i + 2) {
                Some(e) => {
                    proof { lemma_find_pair_bounds(s, i + 2); }
                    let g = segment(line, i + 2, e, Style::Bold);
                    out.push(g);
                    i = e + 2;
                },
                None => {
                    out.push(segment(line, i, n, Style::Plain));
                    i = n;
                },
            }
        } else if v[i] == '*' || v[i] == '`' {
            let c = v[i];
            let style = if c == '*' { Style::Italic } else { Style::Code };
            match find_char_exec(&v, i + 1, c) {
                Some(e) => {
                    proof { lemma_find_char_bounds(s, i + 1, c); }
                    out.push(segment(line, i + 1, e, style));
                    i = e + 1;
                },
                None => {
                    out.push(segment(line, i, n, Style::Plain));
                    i = n;
                },
            }
        } else if v[i] == '#' {
            let h = hash_end_exec(&v, i);
            proof { lemma_hash_bounds(s, i as int); }
            if h < n && v[h] == ' ' {
                out.push(segment(line, h + 1, n, Style::HeaderBold));
            } else {
                out.push(segment(line, i, n, Style::Plain));
            }
            i = n;
        } else {
            let k = special_exec(&v, i);
            proof { lemma_special_bounds(s, i as int); }
            if stops_plain_exec(&v, k) {
                out.push(segment(line, i, n, Style::Plain));
                i = n;
            } else {
                out.push(segment(line, i, k, Style::Plain));
                i = k;
            }
        }
        proof {
            assert(segments_view(out@) =~= before.push(segments_view(out@).last()));
            assert(tokens_from(s, n as int) =~= seq![]);
            assert(rest =~= seq![segments_view(out@).last()] + tokens_from(s, i as int));
            assert(segments_view(out@) + tokens_from(s, i as int) =~= before + rest);
        }
    }
    assert(tokens_from(s, n as int) =~= seq![]);
    assert(segments_view(out@) =~= segments_view(out@) + tokens_from(s, n as int));
    out
}

/// The texts of the segments, joined in order.
pub open spec fn joined_text(t: Seq<(Seq<char>, Style)>) -> Seq<char>
    decreases t.len(),
{
    if t.len() == 0 {
        seq![]
    } else {
        t[0].0 + joined_text(t.drop_first())
    }
}

/// A line without marker characters comes back byte for byte: styled, it is a
/// single plain segment (none when empty). Unstyled, every line comes back
/// whole.
pub proof fn lemma_round_trip_without_markers(s: Seq<char>)
    ensures
        joined_text(line_tokens(s, false)) == s,
        (forall|k: int| 0 <= k < s.len() ==> !is_special(#[trigger] s[k])) ==> joined_text(
            line_tokens(s, true),
        ) == s,
        (forall|k: int| 0 <= k < s.len() ==> !is_special(#[trigger] s[k])) && s.len() > 0
            ==> line_tokens(s, true) == seq![(s, Style::Plain)],
{
    let one = seq![(s, Style::Plain)];
    assert(one.drop_first() =~= seq![]);
    assert(joined_text(one.drop_first()) =~= seq![]);
    assert(s + seq![] =~= s);
    assert(joined_text(one) == s);
    if s.len() == 0 {
        assert(s =~= seq![]);
        assert(tokens_from(s, 0) =~= seq![]);
    }
    if s.len() > 0 && forall|k: int| 0 <= k < s.len() ==> !is_special(#[trigger] s[k]) {
        lemma_special_bounds(s, 0);
        assert(special_from(s, 0) == s.len());
        assert(tokens_from(s, s.len() as int) =~= seq![]);
        assert(s.subrange(0, s.len() as int) =~= s);
        assert(tokens_from(s, 0) =~= one);
    }
}

proof fn lemma_joined_cons(x: (Seq<char>, Style), rest: Seq<(Seq<char>, Style)>)
    ensures
        joined_text(seq![x] + rest) == x.0 + joined_text(rest),
{
    let t = seq![x] + rest;
    assert(t.drop_first() =~= rest);
    assert(t[0] == x);
}

proof fn lemma_all_plain_keeps(s: Seq<char>, i: int)
    requires
        0 <= i <= s.len(),
    ensures
        (forall|k: int|
            0 <= k < tokens_from(s, i).len() ==> (#[trigger] tokens_from(s, i)[k]).1
                == Style::Plain) ==> joined_text(tokens_from(s, i)) == s.subrange(
            i,
            s.len() as int,
        ),
    decreases s.len() - i,
{
    let n = s.len() as int;
    let t = tokens_from(s, i);
    if i >= n {
        assert(s.subrange(i, n) =~= seq![]);
    } else {
        let one = (s.subrange(i, n), Style::Plain);
        lemma_joined_cons(one, seq![]);
        assert(seq![one] + Seq::<(Seq<char>, Style)>::empty() =~= plain_rest(s, i));
        assert(one.0 + joined_text(Seq::<(Seq<char>, Style)>::empty()) =~= one.0);
        if !(s[i] == '*' || s[i] == '`' || s[i] == '#') {
            let k = special_from(s, i);
            lemma_special_bounds(s, i);
            if !stops_plain(s, k) {
                let x = (s.subrange(i, k), Style::Plain);
                let rest = tokens_from(s, k);
                lemma_all_plain_keeps(s, k);
                lemma_joined_cons(x, rest);
                if forall|j: int| 0 <= j < t.len() ==> (#[trigger] t[j]).1 == Style::Plain {
                    assert forall|j: int| 0 <= j < rest.len() implies (#[trigger] rest[j]).1
                        == Style::Plain by {
                        assert(t[j + 1] == rest[j]);
                    }
                    assert(s.subrange(i, k) + s.subrange(k, n) =~= s.subrange(i, n));
                }
            }
        } else if forall|j: int| 0 <= j < t.len() ==> (#[trigger] t[j]).1 == Style::Plain {
            assert(t.len() > 0 ==> t[0].1 == Style::Plain);
            lemma_find_pair_bounds(s, i + 2);
            lemma_find_char_bounds(s, i + 1, s[i]);
        }
    }
}

/// Characters are removed only around styled segments: when every segment
/// of a line is plain, joining them gives the line back exactly.
pub proof fn lemma_plain_segments_keep_line(s: Seq<char>, styled: bool)
    ensures
        (forall|k: int|
            0 <= k < line_tokens(s, styled).len() ==> (#[trigger] line_tokens(s, styled)[k]).1
                == Style::Plain) ==> joined_text(line_tokens(s, styled)) == s,
{
    lemma_all_plain_keeps(s, 0);
    assert(s.subrange(0, s.len() as int) =~= s);
    lemma_round_trip_without_markers(s);
}

/// The marker that opens and closes a segment of an inline style.
pub open spec fn marker(st: Style) -> Seq<char> {
    match st {
        Style::Bold => seq!['*', '*'],
        Style::Italic => seq!['*'],
        Style::Code => seq!['`'],
        _ => seq![],
    }
}

/// A run of `h` `#` characters.
pub open spec fn hash_run(h: nat) -> Seq<char> {
    Seq::new(h, |_k: int| '#')
}

/// `s` is the segments' texts in order, each wrapped in its style's marker on
/// both sides, with a header segment, last, after a run of `#` and a space.
pub open spec fn wraps(t: Seq<(Seq<char>, Style)>, s: Seq<char>) -> bool
    decreases t.len(),
{
    if t.len() == 0 {
        s.len() == 0
    } else if t[0].1 == Style::HeaderBold {
        t.len() == 1 && exists|h: nat|
            h >= 1 && s == #[trigger] hash_run(h) + seq![' '] + t[0].0
    } else {
        let w = marker(t[0].1) + t[0].0 + marker(t[0].1);
        w.len() <= s.len() && s.subrange(0, w.len() as int) == w && wraps(
            t.drop_first(),
            s.subrange(w.len() as int, s.len() as int),
        )
    }
}

proof fn lemma_wraps_cons(x: (Seq<char>, Style), rest: Seq<(Seq<char>, Style)>, s: Seq<char>)
    requires
        x.1 != Style::HeaderBold,
        ({
            let w = marker(x.1) + x.0 + marker(x.1);
            w.len() <= s.len() && s.subrange(0, w.len() as int) == w && wraps(
                rest,
                s.subrange(w.len() as int, s.len() as int),
            )
        }),
    ensures
        wraps(seq![x] + rest, s),
{
    let t = seq![x] + rest;
    assert(t.drop_first() =~= rest);
    assert(t[0] == x);
}

proof fn lemma_wraps_plain_rest(s: Seq<char>, i: int)
    requires
        0 <= i <= s.len(),
    ensures
        wraps(plain_rest(s, i), s.subrange(i, s.len() as int)),
{
    let a = s.subrange(i, s.len() as int);
    let x = (a, Style::Plain);
    assert(marker(Style::Plain) + a + marker(Style::Plain) =~= a);
    assert(a.subrange(0, a.len() as int) =~= a);
    assert(a.subrange(a.len() as int, a.len() as int) =~= seq![]);
    lemma_wraps_cons(x, seq![], a);
    assert(seq![x] + Seq::<(Seq<char>, Style)>::empty() =~= plain_rest(s, i));
}

/// A pair region `s[i..b]`: `m`, the kept text `s[a..e]`, `m`.
proof fn lemma_wraps_pair(s: Seq<char>, i: int, a: int, e: int, b: int, st: Style, rest: Seq<(Seq<char>, Style)>)
    requires
        st != Style::HeaderBold,
        0 <= i <= a <= e <= b <= s.len(),
        a - i == marker(st).len(),
        b - e == marker(st).len(),
        forall|k: int| 0 <= k < marker(st).len() ==> s[i + k] == #[trigger] marker(st)[k] && s[e + k] == marker(st)[k],
        wraps(rest, s.subrange(b, s.len() as int)),
    ensures
        wraps(seq![(s.subrange(a, e), st)] + rest, s.subrange(i, s.len() as int)),
{
    let sub = s.subrange(i, s.len() as int);
    let w = marker(st) + s.subrange(a, e) + marker(st);
    assert(w.len() == b - i);
    assert forall|k: int| 0 <= k < w.len() implies #[trigger] sub.subrange(0, w.len() as int)[k] == w[k] by {
        if k < a - i {
            assert(w[k] == marker(st)[k]);
        } else if k < e - i {
        } else {
            assert(w[k] == marker(st)[k - (e - i)]);
            assert(s[e + (k - (e - i))] == marker(st)[k - (e - i)]);
        }
    }
    assert(sub.subrange(0, w.len() as int) =~= w);
    assert(sub.subrange(w.len() as int, sub.len() as int) =~= s.subrange(b, s.len() as int));
    lemma_wraps_cons((s.subrange(a, e), st), rest, sub);
}

proof fn lemma_tokens_wrap(s: Seq<char>, i: int)
    requires
        0 <= i <= s.len(),
    ensures
        wraps(tokens_from(s, i), s.subrange(i, s.len() as int)),
    decreases s.len() - i,
{
    let n = s.len() as int;
    if i >= n {
        assert(s.subrange(i, n) =~= seq![]);
    } else if s[i] == '*' && i + 1 < n && s[i + 1] == '*' {
        let e = find_pair_from(s, i + 2);
        lemma_find_pair_bounds(s, i + 2);
        if e < 0 {
            lemma_wraps_plain_rest(s, i);
        } else {
            lemma_tokens_wrap(s, e + 2);
            lemma_wraps_pair(s, i, i + 2, e, e + 2, Style::Bold, tokens_from(s, e + 2));
        }
    } else if s[i] == '*' || s[i] == '`' {
        let c = s[i];
        let e = find_char_from(s, i + 1, c);
        lemma_find_char_bounds(s, i + 1, c);
        if e < 0 {
            lemma_wraps_plain_rest(s, i);
        } else {
            lemma_tokens_wrap(s, e + 1);
            let st = if c == '*' { Style::Italic } else { Style::Code };
            lemma_wraps_pair(s, i, i + 1, e, e + 1, st, tokens_from(s, e + 1));
        }
    } else if s[i] == '#' {
        let h = hash_end(s, i);
        lemma_hash_bounds(s, i);
        if h < n && s[h] == ' ' {
            let x = (s.subrange(h + 1, n), Style::HeaderBold);
            let t = seq![x];
            assert(t =~= tokens_from(s, i));
            let hn = (h - i) as nat;
            assert(hash_run(hn) + seq![' '] + x.0 =~= s.subrange(i, n));
            assert(t[0] == x);
        } else {
            lemma_wraps_plain_rest(s, i);
        }
    } else {
        let k = special_from(s, i);
        lemma_special_bounds(s, i);
        if stops_plain(s, k) {
            lemma_wraps_plain_rest(s, i);
        } else {
            lemma_tokens_wrap(s, k);
            lemma_wraps_pair(s, i, i, k, k, Style::Plain, tokens_from(s, k));
        }
    }
}

/// For any line, the styled segments give the line back exactly when each
/// segment's text is wrapped in its style's marker (`**`, `*` or `` ` `` on
/// both sides for a closed pair, nothing for plain text) and a header's text
/// is put after its `#` run and space: only the delimiters of closed pairs and
/// of a header prefix are removed.
pub proof fn lemma_segments_rebuild_line(s: Seq<char>, styled: bool)
    ensures
        wraps(line_tokens(s, styled), s),
{
    lemma_tokens_wrap(s, 0);
    assert(s.subrange(0, s.len() as int) =~= s);
    if !styled && s.len() > 0 {
        lemma_wraps_plain_rest(s, 0);
        assert(plain_rest(s, 0) =~= line_tokens(s, styled));
    }
}

} // verus!
