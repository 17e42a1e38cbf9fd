//! Converting between byte offsets into a document and positions given as
//! a line and a count of UTF-16 code units within that line, as editors
//! exchange them.

use vstd::prelude::*;
use crate::snippet::{line_at, line_starts, lemma_line_at, lemma_line_starts};
use crate::text::chars_of;

verus! {

/// How many bytes the UTF-8 form of `c` takes.
pub open spec fn utf8_len(c: char) -> nat {
    if (c as u32) < 0x80 {
        1
    } else if (c as u32) < 0x800 {
        2
    } else if (c as u32) < 0x10000 {
        3
    } else {
        4
    }
}

/// How many code units the UTF-16 form of `c` takes.
pub open spec fn utf16_len(c: char) -> nat {
    if (c as u32) < 0x10000 { 1 } else { 2 }
}

/// The length of `s` in UTF-8 bytes.
pub open spec fn byte_len(s: Seq<char>) -> nat
    decreases s.len(),
{
    if s.len() == 0 { 0 } else { byte_len(s.drop_last()) + utf8_len(s.last()) }
}

/// The length of `s` in UTF-16 code units.
pub open spec fn utf16_count(s: Seq<char>) -> nat
    decreases s.len(),
{
    if s.len() == 0 { 0 } else { utf16_count(s.drop_last()) + utf16_len(s.last()) }
}

/// The byte offset of character `i` of `t`.
pub open spec fn byte_at(t: Seq<char>, i: int) -> int {
    byte_len(t.take(i)) as int
}

/// Whether the byte offset `b` falls between two characters of `t` (or at
/// either end).
pub open spec fn is_boundary(t: Seq<char>, b: int) -> bool {
    exists|ci: int| 0 <= ci <= t.len() && byte_at(t, ci) == b
}

/// The character at whose start the byte offset `b` lies.
pub open spec fn char_index(t: Seq<char>, b: int) -> int {
    choose|ci: int| 0 <= ci <= t.len() && byte_at(t, ci) == b
}

/// The byte offsets at which the lines of `t` start.
pub open spec fn byte_line_starts(t: Seq<char>) -> Seq<int> {
    line_starts(t).map_values(|k: int| byte_at(t, k))
}

/// A place in a document: a line (from 0) and a count of UTF-16 code
/// units from the start of that line.
#[derive(Debug, PartialEq, Eq, Clone, Copy, Structural)]
pub struct Position {
    pub line: u32,
    pub character: u32,
}

/// A stretch of a document between two positions.
#[derive(Debug, PartialEq, Eq, Clone, Copy, Structural)]
pub struct Range {
    pub start: Position,
    pub end: Position,
}

/// The position of the byte offset `b` of `t`: the line it lies on, and
/// the UTF-16 code units between that line's start and it.
pub open spec fn position_of(t: Seq<char>, b: int) -> Position {
    let ci = char_index(t, b);
    let cs = line_starts(t);
    let l = line_at(cs, ci);
    Position { line: l as u32, character: utf16_count(t.subrange(cs[l], ci)) as u32 }
}

/// The index of the first character of `lt` before which at least `c`
/// UTF-16 code units of `lt` lie, or -1.
pub open spec fn first_reach(lt: Seq<char>, c: int) -> int
    decreases lt.len(),
{
    if lt.len() == 0 {
        -1
    } else if c <= 0 {
        0
    } else {
        let r = first_reach(lt.drop_first(), c - utf16_len(lt[0]));
        if r < 0 { -1 } else { r + 1 }
    }
}

/// The length of `lt` without its trailing line break characters.
pub open spec fn trimmed_len(lt: Seq<char>) -> nat
    decreases lt.len(),
{
    if lt.len() > 0 && (lt.last() == '\n' || lt.last() == '\r') {
        trimmed_len(lt.drop_last())
    } else {
        lt.len()
    }
}

/// The byte offset of the position `p` in `t`. A line past the end stands
/// for the last line; a count past the end of its line stands for the end
/// of the line's text, before its line break.
pub open spec fn offset_of(t: Seq<char>, p: Position) -> int {
    let cs = line_starts(t);
    let line = if (p.line as int) < cs.len() - 1 { p.line as int } else { cs.len() - 1 };
    let ls = cs[line];
    let le = if line + 1 < cs.len() { cs[line + 1] } else { t.len() as int };
    let lt = t.subrange(ls, le);
    let k = first_reach(lt, p.character as int);
    if k >= 0 {
        byte_at(t, ls + k)
    } else {
        byte_at(t, ls + trimmed_len(lt))
    }
}

proof fn lemma_byte_step(t: Seq<char>, i: int)
    requires
        0 <= i < t.len(),
    ensures
        byte_at(t, i + 1) == byte_at(t, i) + utf8_len(t[i]),
        utf16_len(t[i]) <= utf8_len(t[i]),
        utf8_len(t[i]) >= 1,
{
    assert(t.take(i + 1).drop_last() =~= t.take(i));
}

/// Byte offsets grow with the character index.
proof fn lemma_byte_mono(t: Seq<char>, i: int, j: int)
    requires
        0 <= i < j <= t.len(),
    ensures
        byte_at(t, i) < byte_at(t, j),
    decreases j - i,
{
    lemma_byte_step(t, j - 1);
    if i < j - 1 {
        lemma_byte_mono(t, i, j - 1);
    }
}

proof fn lemma_char_index(t: Seq<char>, b: int)
    requires
        is_boundary(t, b),
    ensures
        0 <= char_index(t, b) <= t.len(),
        byte_at(t, char_index(t, b)) == b,
        forall|ci: int| 0 <= ci <= t.len() && byte_at(t, ci) == b ==> ci == char_index(t, b),
{
    assert forall|ci: int| 0 <= ci <= t.len() && byte_at(t, ci) == b implies ci == char_index(t, b) by {
        let k = char_index(t, b);
        if ci < k {
            lemma_byte_mono(t, ci, k);
        } else if k < ci {
            lemma_byte_mono(t, k, ci);
        }
    }
}

proof fn lemma_utf16_step(s: Seq<char>, a: int, j: int)
    requires
        0 <= a <= j < s.len(),
    ensures
        utf16_count(s.subrange(a, j + 1)) == utf16_count(s.subrange(a, j)) + utf16_len(s[j]),
{
    assert(s.subrange(a, j + 1).drop_last() =~= s.subrange(a, j));
}

/// `line_at` over byte offsets finds the same line as over characters.
proof fn lemma_line_at_bytes(t: Seq<char>, cs: Seq<int>, ci: int)
    requires
        0 <= ci <= t.len(),
        forall|k: int| 0 <= k < cs.len() ==> 0 <= #[trigger] cs[k] <= t.len(),
    ensures
        line_at(cs.map_values(|k: int| byte_at(t, k)), byte_at(t, ci)) == line_at(cs, ci),
    decreases cs.len(),
{
    let bs = cs.map_values(|k: int| byte_at(t, k));
    if cs.len() > 1 {
        assert(bs.last() == byte_at(t, cs.last()));
        if cs.last() <= ci {
            if cs.last() < ci {
                lemma_byte_mono(t, cs.last(), ci);
            }
        } else {
            lemma_byte_mono(t, ci, cs.last());
            assert(bs.drop_last() =~= cs.drop_last().map_values(|k: int| byte_at(t, k)));
            lemma_line_at_bytes(t, cs.drop_last(), ci);
        }
    }
}

proof fn lemma_line_at_next(st: Seq<int>, off: int)
    ensures
        st.len() >= 1 ==> 0 <= line_at(st, off) < st.len(),
        line_at(st, off) + 1 < st.len() ==> st[line_at(st, off) + 1] > off,
    decreases st.len(),
{
    if st.len() > 1 && st.last() > off {
        let d = st.drop_last();
        lemma_line_at_next(d, off);
        let r = line_at(d, off);
        if r + 1 < d.len() {
            assert(d[r + 1] == st[r + 1]);
        }
    }
}

proof fn lemma_utf16_concat(a: Seq<char>, b: Seq<char>)
    ensures
        utf16_count(a + b) == utf16_count(a) + utf16_count(b),
    decreases b.len(),
{
    if b.len() == 0 {
        assert(a + b =~= a);
    } else {
        lemma_utf16_concat(a, b.drop_last());
        assert((a + b).drop_last() =~= a + b.drop_last());
    }
}

proof fn lemma_bytes_concat(a: Seq<char>, b: Seq<char>)
    ensures
        byte_len(a + b) == byte_len(a) + byte_len(b),
    decreases b.len(),
{
    if b.len() == 0 {
        assert(a + b =~= a);
    } else {
        lemma_bytes_concat(a, b.drop_last());
        assert((a + b).drop_last() =~= a + b.drop_last());
    }
}

/// A text has no more UTF-16 code units than UTF-8 bytes, and no more
/// characters than either.
proof fn lemma_counts_bounded(s: Seq<char>)
    ensures
        s.len() <= utf16_count(s) <= byte_len(s),
    decreases s.len(),
{
    if s.len() > 0 {
        lemma_counts_bounded(s.drop_last());
    }
}

/// The first character of `lt` before which `utf16_count(lt.take(m))` code
/// units lie is character `m`.
proof fn lemma_first_reach_at(lt: Seq<char>, m: int)
    requires
        0 <= m < lt.len(),
    ensures
        first_reach(lt, utf16_count(lt.take(m)) as int) == m,
    decreases m,
{
    if m == 0 {
        assert(lt.take(0) =~= Seq::<char>::empty());
    } else {
        let rest = lt.drop_first();
        assert(lt.take(m) =~= seq![lt[0]] + rest.take(m - 1));
        lemma_utf16_concat(seq![lt[0]], rest.take(m - 1));
        let one = seq![lt[0]];
        assert(one.drop_last() =~= Seq::<char>::empty());
        assert(utf16_count(one.drop_last()) == 0);
        assert(one.last() == lt[0]);
        assert(utf16_count(one) == utf16_len(lt[0]));
        let c = utf16_count(lt.take(m)) as int;
        assert(c == utf16_len(lt[0]) + utf16_count(rest.take(m - 1)));
        assert(c > 0);
        lemma_first_reach_at(rest, m - 1);
        assert(first_reach(rest, c - utf16_len(lt[0])) == m - 1);
    }
}

/// No character of `lt` has `c` code units before it when every prefix
/// short of the whole has fewer.
proof fn lemma_first_reach_none(lt: Seq<char>, c: int)
    requires
        forall|k: int| 0 <= k < lt.len() ==> utf16_count(#[trigger] lt.take(k)) < c,
    ensures
        first_reach(lt, c) == -1,
    decreases lt.len(),
{
    if lt.len() > 0 {
        assert(lt.take(0) =~= Seq::<char>::empty());
        let rest = lt.drop_first();
        let c2 = c - utf16_len(lt[0]);
        assert forall|k: int| 0 <= k < rest.len() implies utf16_count(#[trigger] rest.take(k)) < c2 by {
            assert(lt.take(k + 1) =~= seq![lt[0]] + rest.take(k));
            lemma_utf16_concat(seq![lt[0]], rest.take(k));
            assert(seq![lt[0]].drop_last() =~= Seq::<char>::empty());
        }
        lemma_first_reach_none(rest, c2);
    }
}

/// Converting a byte offset of `t` to a position and back gives the same
/// offset, for every offset between two characters, except the very end of
/// a text that ends with a carriage return (which the conversion back
/// leaves off as part of the line break). The text is short enough that
/// positions need no truncation.
pub proof fn lemma_offset_of_position(t: Seq<char>, ci: int)
    requires
        0 <= ci <= t.len(),
        byte_len(t) <= u32::MAX,
        !(ci == t.len() && t.len() > 0 && t.last() == '\r'),
    ensures
        offset_of(t, position_of(t, byte_at(t, ci))) == byte_at(t, ci),
{
    let b = byte_at(t, ci);
    assert(is_boundary(t, b)) by {
        assert(0 <= ci <= t.len() && byte_at(t, ci) == b);
    }
    lemma_char_index(t, b);
    assert(char_index(t, b) == ci);
    let cs = line_starts(t);
    lemma_line_starts(t);
    lemma_line_at(cs, ci);
    lemma_line_at_next(cs, ci);
    let l = line_at(cs, ci);
    let ls = cs[l];
    let sub = t.subrange(ls, ci);
    lemma_counts_bounded(t);
    lemma_counts_bounded(sub);
    assert(t =~= t.take(ls) + sub + t.subrange(ci, t.len() as int));
    lemma_bytes_concat(t.take(ls) + sub, t.subrange(ci, t.len() as int));
    lemma_bytes_concat(t.take(ls), sub);
    let p = position_of(t, b);
    assert(p.line as int == l);
    assert(p.character as int == utf16_count(sub));
    let le = if l + 1 < cs.len() { cs[l + 1] } else { t.len() as int };
    let lt = t.subrange(ls, le);
    if ci < le {
        assert(lt.take(ci - ls) =~= sub);
        lemma_first_reach_at(lt, ci - ls);
    } else {
        assert(l + 1 >= cs.len());
        assert(ci == t.len());
        assert(lt =~= sub);
        assert forall|k: int| 0 <= k < lt.len() implies utf16_count(#[trigger] lt.take(k)) < utf16_count(sub) by {
            assert(sub =~= lt.take(k) + lt.subrange(k, lt.len() as int));
            lemma_utf16_concat(lt.take(k), lt.subrange(k, lt.len() as int));
            lemma_counts_bounded(lt.subrange(k, lt.len() as int));
        }
        lemma_first_reach_none(lt, utf16_count(sub) as int);
        if lt.len() > 0 {
            assert(lt.last() == t.last());
            if t.last() == '\n' {
                assert(cs.last() == t.len());
                assert(cs.len() - 1 == l);
            }
        }
        assert(trimmed_len(lt) == lt.len());
    }
}

fn utf8_len_exec(c: char) -> (r: usize)
    ensures
        r == utf8_len(c),
{
    let u = c as u32;
    if u < 0x80 {
        1
    } else if u < 0x800 {
        2
    } else if u < 0x10000 {
        3
    } else {
        4
    }
}

fn utf16_len_exec(c: char) -> (r: usize)
    ensures
        r == utf16_len(c),
{
    let u = c as u32;
    if u < 0x10000 { 1 } else { 2 }
}

/// Walks the characters of `v` from the start up to character `k`, whose
/// byte offset is `target`; gives `k` and `target`.
fn walk_to(v: &Vec<char>, target: usize, Ghost(k): Ghost<int>) -> (r: (usize, usize))
    requires
        0 <= k <= v@.len(),
        target as int == byte_at(v@, k),
    ensures
        r.0 as int == k,
        r.1 == target,
{
    let ghost t = v@;
    let vlen = v.len();
    let mut j: usize = 0;
    let mut bj: usize = 0;
    proof {
        assert(t.take(0) =~= Seq::<char>::empty());
    }
    while bj < target
        invariant
            v@ == t,
            vlen == t.len(),
            0 <= k <= t.len(),
            j <= k,
            bj == byte_at(t, j as int),
            target as int == byte_at(t, k),
        decreases target - bj,
    {
        proof {
            if j as int == k {
                assert(false);
            }
            lemma_byte_step(t, j as int);
            if j + 1 < k {
                lemma_byte_mono(t, j + 1, k);
            }
        }
        bj = bj + utf8_len_exec(v[j]);
        j = j + 1;
    }
    proof {
        if (j as int) < k {
            lemma_byte_mono(t, j as int, k);
        }
    }
    (j, bj)
}

/// Scans the characters `start..` of a line whose characters are `lt`
/// (up to character `ec`; the line ends at the end of `v` when `last`,
/// else at byte offset `le`), for the first one before which at least `c`
/// UTF-16 code units of the line lie: its byte offset, or else where the
/// line ends (character and byte offset).
fn reach_in_line(
    v: &Vec<char>,
    start: usize,
    bstart: usize,
    last: bool,
    le: usize,
    c: usize,
    Ghost(ec): Ghost<int>,
) -> (r: Result<usize, (usize, usize)>)
    requires
        0 <= start <= ec <= v@.len(),
        bstart as int == byte_at(v@, start as int),
        !last ==> le as int == byte_at(v@, ec),
        last ==> ec == v@.len(),
        byte_len(v@) <= usize::MAX,
    ensures
        match r {
            Ok(b) => first_reach(v@.subrange(start as int, ec), c as int) >= 0 && b as int == byte_at(
                v@,
                start + first_reach(v@.subrange(start as int, ec), c as int),
            ),
            Err((e, eb)) => first_reach(v@.subrange(start as int, ec), c as int) < 0 && e as int == ec && eb as int
                == byte_at(v@, ec),
        },
{
    let ghost t = v@;
    let ghost lt = t.subrange(start as int, ec);
    let vlen = v.len();
    let mut j = start;
    let mut bj = bstart;
    let mut used: usize = 0;
    proof {
        assert(lt.skip(0) =~= lt);
        assert(t.subrange(start as int, start as int) =~= Seq::<char>::empty());
        assert(t.take(t.len() as int) =~= t);
    }
    while (last && j < v.len()) || (!last && bj < le)
        invariant
            v@ == t,
            vlen == t.len(),
            0 <= start <= j <= ec <= t.len(),
            !last ==> le as int == byte_at(t, ec),
            last ==> ec == t.len(),
            lt == t.subrange(start as int, ec),
            bj == byte_at(t, j as int),
            used == utf16_count(t.subrange(start as int, j as int)),
            used + byte_at(t, start as int) <= bj,
            first_reach(lt, c as int) == if first_reach(lt.skip(j - start), c - used) < 0 {
                -1
            } else {
                first_reach(lt.skip(j - start), c - used) + (j - start)
            },
            byte_len(t) <= usize::MAX,
            byte_at(t, t.len() as int) == byte_len(t),
        decreases t.len() - j,
    {
        proof {
            if !last && j as int == ec {
                assert(false);
            }
            assert(lt.skip(j - start).len() > 0);
            assert(lt.skip(j - start)[0] == t[j as int]);
        }
        if used >= c {
            return Ok(bj);
        }
        proof {
            assert(lt.skip(j - start).drop_first() =~= lt.skip(j + 1 - start));
            lemma_byte_step(t, j as int);
            lemma_utf16_step(t, start as int, j as int);
            if j + 1 < t.len() {
                lemma_byte_mono(t, j + 1, t.len() as int);
            }
        }
        used = used + utf16_len_exec(v[j]);
        bj = bj + utf8_len_exec(v[j]);
        j = j + 1;
    }
    proof {
        if !last && (j as int) < ec {
            lemma_byte_mono(t, j as int, ec);
        }
        assert(lt.skip(j - start).len() == 0);
    }
    Err((j, bj))
}

/// The byte offset of the end of the characters `start..e` of `v` once
/// their trailing line break characters are left off.
fn trim_back(v: &Vec<char>, start: usize, e: usize, eb: usize) -> (r: usize)
    requires
        start <= e <= v@.len(),
        eb as int == byte_at(v@, e as int),
    ensures
        r as int == byte_at(v@, start + trimmed_len(v@.subrange(start as int, e as int))),
{
    let ghost t = v@;
    let mut e = e;
    let mut eb = eb;
    let ghost e0 = e;
    while e > start && (v[e - 1] == '\n' || v[e - 1] == '\r')
        invariant
            v@ == t,
            start <= e <= e0 <= t.len(),
            eb as int == byte_at(t, e as int),
            trimmed_len(t.subrange(start as int, e0 as int)) == trimmed_len(t.subrange(start as int, e as int)),
        decreases e,
    {
        proof {
            lemma_byte_step(t, e - 1);
            assert(t.subrange(start as int, e as int).drop_last() =~= t.subrange(start as int, e - 1));
        }
        e = e - 1;
        eb = eb - utf8_len_exec(v[e]);
    }
    proof {
        let sub = t.subrange(start as int, e as int);
        if e > start {
            assert(sub.last() == t[e - 1]);
        }
        assert(trimmed_len(sub) == e - start);
    }
    eb
}

/// Where the lines of a document start, as byte offsets, so that byte
/// offsets and positions can be converted without rescanning the whole
/// document each time.
pub struct LineIndex {
    line_starts: Vec<usize>,
}

impl LineIndex {
    /// The byte offsets at which the lines start.
    pub closed spec fn starts(&self) -> Seq<int> {
        self.line_starts@.map_values(|x: usize| x as int)
    }

    /// Whether this index was built from `t`.
    pub open spec fn indexes(&self, t: Seq<char>) -> bool {
        self.starts() == byte_line_starts(t)
    }

    /// Scans `text` for line breaks and records where each line starts.
    #[verifier::rlimit(40)]
    #[verifier::spinoff_prover]
    pub fn new(text: &str) -> (r: LineIndex)
        requires
            byte_len(text@) <= usize::MAX,
        ensures
            r.indexes(text@),
    {
        let v = chars_of(text);
        let ghost t = text@;
        let mut starts: Vec<usize> = Vec::new();
        starts.push(0);
        let mut i: usize = 0;
        let mut b: usize = 0;
        proof {
            assert(t.take(0) =~= Seq::<char>::empty());
            assert(starts@.map_values(|x: usize| x as int) =~= seq![0int]);
            assert(line_starts(t.take(0)).map_values(|k: int| byte_at(t, k)) =~= seq![byte_at(t, 0)]);
        }
        while i < v.len()
            invariant
                v@ == t,
                i <= v@.len(),
                b == byte_at(t, i as int),
                byte_len(t) <= usize::MAX,
                starts@.map_values(|x: usize| x as int) == line_starts(t.take(i as int)).map_values(
                    |k: int| byte_at(t, k),
                ),
            decreases v.len() - i,
        {
            proof {
                lemma_byte_step(t, i as int);
                if i + 1 < t.len() {
                    lemma_byte_mono(t, i + 1, t.len() as int);
                }
                assert(t.take(t.len() as int) =~= t);
                assert(t.take(i + 1).drop_last() =~= t.take(i as int));
                assert(t.take(i + 1).last() == t[i as int]);
            }
            let c = v[i];
            b = b + utf8_len_exec(c);
            if c == '\n' {
                let ghost old = starts@;
                starts.push(b);
                proof {
                    assert(starts@.map_values(|x: usize| x as int) =~= old.map_values(|x: usize| x as int).push(
                        b as int,
                    ));
                    assert(line_starts(t.take(i + 1)) == line_starts(t.take(i as int)).push(i + 1));
                    assert(line_starts(t.take(i + 1)).map_values(|k: int| byte_at(t, k)) =~= line_starts(
                        t.take(i as int),
                    ).map_values(|k: int| byte_at(t, k)).push(byte_at(t, i + 1)));
                }
            } else {
                proof {
                    assert(line_starts(t.take(i + 1)) == line_starts(t.take(i as int)));
                }
            }
            i = i + 1;
        }
        proof {
            assert(t.take(t.len() as int) =~= t);
        }
        LineIndex { line_starts: starts }
    }

    /// The index of the last line that starts at or before the byte
    /// offset `b`.
    fn line_of_byte(&self, b: usize) -> (r: usize)
        requires
            self.line_starts@.len() >= 1,
        ensures
            r as int == line_at(self.starts(), b as int),
            r < self.line_starts@.len(),
    {
        let ghost sv = self.starts();
        let mut i: usize = self.line_starts.len() - 1;
        proof {
            assert(sv.take(self.line_starts@.len() as int) =~= sv);
        }
        while i >= 1
            invariant
                i < self.line_starts@.len(),
                sv == self.starts(),
                line_at(sv, b as int) == line_at(sv.take(i + 1), b as int),
            decreases i,
        {
            proof {
                assert(sv.take(i + 1).drop_last() =~= sv.take(i as int));
                assert(sv.take(i + 1).last() == self.line_starts@[i as int] as int);
            }
            if self.line_starts[i] <= b {
                return i;
            }
            i = i - 1;
        }
        i
    }

    /// Converts a byte offset into `text` to a position. `text` must be
    /// the document this index was built from, and the offset must lie
    /// between two of its characters.
    pub fn position(&self, text: &str, offset: usize) -> (r: Position)
        requires
            self.indexes(text@),
            is_boundary(text@, offset as int),
            byte_len(text@) <= usize::MAX,
        ensures
            r == position_of(text@, offset as int),
    {
        let ghost t = text@;
        let ghost cs = line_starts(t);
        let ghost ci = char_index(t, offset as int);
        proof {
            lemma_line_starts(t);
            lemma_char_index(t, offset as int);
            lemma_line_at(cs, ci);
            lemma_line_at_bytes(t, cs, ci);
            assert(self.line_starts@.len() == self.starts().len());
        }
        let v = chars_of(text);
        let line = self.line_of_byte(offset);
        let ghost l = line as int;
        let ls = self.line_starts[line];
        proof {
            assert(self.starts()[l] == ls as int);
            assert(ls as int == byte_at(t, cs[l]));
            assert(t.take(t.len() as int) =~= t);
        }
        let (start, bstart) = walk_to(&v, ls, Ghost(cs[l]));
        let vlen = v.len();
        let mut j = start;
        let mut bj = bstart;
        let mut col: usize = 0;
        proof {
            assert(t.subrange(start as int, start as int) =~= Seq::<char>::empty());
        }
        while bj < offset
            invariant
                v@ == t,
                vlen == t.len(),
                0 <= start <= j <= ci <= t.len(),
                bj == byte_at(t, j as int),
                offset as int == byte_at(t, ci),
                col == utf16_count(t.subrange(start as int, j as int)),
                col + byte_at(t, start as int) <= bj,
                byte_len(t) <= usize::MAX,
                byte_at(t, t.len() as int) == byte_len(t),
            decreases offset - bj,
        {
            proof {
                if j as int == ci {
                    assert(false);
                }
                lemma_byte_step(t, j as int);
                lemma_utf16_step(t, start as int, j as int);
                if j + 1 < ci {
                    lemma_byte_mono(t, j + 1, ci);
                }
            }
            col = col + utf16_len_exec(v[j]);
            bj = bj + utf8_len_exec(v[j]);
            j = j + 1;
        }
        proof {
            if (j as int) < ci {
                lemma_byte_mono(t, j as int, ci);
            }
        }
        Position { line: #[verifier::truncate] (line as u32), character: #[verifier::truncate] (col as u32) }
    }

    /// Converts the byte range `span` of `text` to a range of positions.
    pub fn range(&self, text: &str, span: core::ops::Range<usize>) -> (r: Range)
        requires
            self.indexes(text@),
            is_boundary(text@, span.start as int),
            is_boundary(text@, span.end as int),
            byte_len(text@) <= usize::MAX,
        ensures
            r.start == position_of(text@, span.start as int),
            r.end == position_of(text@, span.end as int),
    {
        Range { start: self.position(text, span.start), end: self.position(text, span.end) }
    }

    /// Converts a position back to a byte offset into `text`, the document
    /// this index was built from; see `offset_of` for positions past the
    /// end of a line or of the document.
    pub fn offset(&self, text: &str, position: Position) -> (r: usize)
        requires
            self.indexes(text@),
            byte_len(text@) <= usize::MAX,
        ensures
            r as int == offset_of(text@, position),
    {
        let ghost t = text@;
        let ghost cs = line_starts(t);
        proof {
            lemma_line_starts(t);
            assert(self.line_starts@.len() == self.starts().len());
        }
        let v = chars_of(text);
        let n = self.line_starts.len();
        let pl = position.line as usize;
        let line = if pl < n - 1 { pl } else { n - 1 };
        let ls = self.line_starts[line];
        let last = n - line <= 1;
        let le = if last { 0 } else { self.line_starts[line + 1] };
        let ghost lc = cs[line as int];
        let ghost ec = if line + 1 < cs.len() { cs[line + 1] } else { t.len() as int };
        proof {
            assert(self.starts()[line as int] == ls as int);
            assert(0 <= lc <= t.len());
            if !last {
                assert(self.starts()[line + 1] == le as int);
                assert(lc < ec <= t.len());
            }
        }
        let (start, bstart) = walk_to(&v, ls, Ghost(lc));
        match reach_in_line(&v, start, bstart, last, le, position.character as usize, Ghost(ec)) {
            Ok(b) => b,
            Err((e, eb)) => trim_back(&v, start, e, eb),
        }
    }
}

} // verus!
