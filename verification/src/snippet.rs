use vstd::prelude::*;
use crate::text::{chars_of, push_char, push_str, decimal, push_decimal, string_from_chars};

verus! {

/* Source snippets around a span, as compilers show them */

/// The escape that starts the highlight of a span (bold red).
pub open spec fn color_start() -> Seq<char> {
    seq!['\x1b', '[', '1', ';', '3', '1', 'm']
}

/// The escape that ends it.
pub open spec fn color_end() -> Seq<char> {
    seq!['\x1b', '[', '0', 'm']
}

/// Where each line of `s` starts: at 0, and after each line break.
pub open spec fn line_starts(s: Seq<char>) -> Seq<int>
    decreases s.len(),
{
    if s.len() == 0 {
        seq![0]
    } else if s.last() == '\n' {
        line_starts(s.drop_last()).push(s.len() as int)
    } else {
        line_starts(s.drop_last())
    }
}

/// `t` without one trailing `c`.
pub open spec fn strip_one(t: Seq<char>, c: char) -> Seq<char> {
    if t.len() > 0 && t.last() == c { t.drop_last() } else { t }
}

/// Line `i` of `s` (whose lines start at `st`), without its line break.
pub open spec fn line_of(s: Seq<char>, st: Seq<int>, i: int) -> Seq<char> {
    let end = if i + 1 < st.len() { st[i + 1] } else { s.len() as int };
    strip_one(strip_one(s.subrange(st[i], end), '\n'), '\r')
}

/// The last line that starts at or before `off`.
pub open spec fn line_at(st: Seq<int>, off: int) -> int
    decreases st.len(),
{
    if st.len() <= 1 {
        0
    } else if st.last() <= off {
        st.len() - 1
    } else {
        line_at(st.drop_last(), off)
    }
}

/// `line` with its characters `a..=b` highlighted; the end is cut at the
/// end of the line, and an empty range leaves the line as it is.
pub open spec fn highlighted(line: Seq<char>, a: int, b: int) -> Seq<char> {
    let e = if b < line.len() - 1 { b } else { line.len() - 1 };
    if line.len() == 0 || a > e {
        line
    } else {
        line.subrange(0, a) + color_start() + line.subrange(a, e + 1) + color_end() + line.subrange(e + 1, line.len() as int)
    }
}

/// `n` in decimal, padded on the left with spaces to `width` characters.
pub open spec fn padded(n: nat, width: nat) -> Seq<char> {
    let d = decimal(n).len();
    Seq::new(if d < width { (width - d) as nat } else { 0 }, |i: int| ' ') + decimal(n)
}

/// What a snippet is drawn from: the lines, the width of line numbers,
/// the indent, whether to color, and where the span starts and ends (line
/// and column of its first and last character).
pub struct Snip {
    pub lines: Seq<Seq<char>>,
    pub width: nat,
    pub indent: Seq<char>,
    pub color: bool,
    pub sl: int,
    pub sc: int,
    pub el: int,
    pub ec: int,
}

/// One line of the snippet: its number, a bar, and the line, highlighted
/// where the span covers it.
pub open spec fn row(p: Snip, idx: int) -> Seq<char> {
    let line = p.lines[idx];
    let body = if p.color && p.sl <= idx <= p.el {
        highlighted(
            line,
            if idx == p.sl { p.sc } else { 0 },
            if idx == p.el { p.ec } else if line.len() > 0 { line.len() - 1 } else { 0 },
        )
    } else {
        line
    };
    p.indent + padded((idx + 1) as nat, p.width) + " | "@ + body + "\n"@
}

/// The lines `from..=to` of the snippet.
pub open spec fn rows(p: Snip, from: int, to: int) -> Seq<char>
    decreases to - from + 1,
{
    if to < from {
        Seq::empty()
    } else {
        rows(p, from, to - 1) + row(p, to)
    }
}

/// The lines of `s` around the span `[start, end)` (cut to the source),
/// each numbered: a line of context on each side of the lines the span
/// starts and ends on, the lines between left out as `...` when more than
/// two would be; with `color`, the span highlighted where it lies.
pub open spec fn snippet(s: Seq<char>, start: int, end: int, indent: Seq<char>, color: bool) -> Seq<char> {
    let st = line_starts(s);
    let total = st.len() as int;
    let ss = if start < s.len() { start } else { s.len() as int };
    let se = if end < s.len() { end } else { s.len() as int };
    let last = if se > ss { se - 1 } else { ss };
    let sl = line_at(st, ss);
    let el = line_at(st, last);
    let begin_first = if sl >= 1 { sl - 1 } else { 0 };
    let begin_last = if sl + 1 < total - 1 { sl + 1 } else { total - 1 };
    let end_first = if el >= 1 { el - 1 } else { 0 };
    let end_last = if el + 1 < total - 1 { el + 1 } else { total - 1 };
    let p = Snip {
        lines: Seq::new(total as nat, |i: int| line_of(s, st, i)),
        width: decimal((end_last + 1) as nat).len(),
        indent,
        color,
        sl,
        sc: ss - st[sl],
        el,
        ec: last - st[el],
    };
    if end_first - begin_last - 1 <= 2 {
        rows(p, begin_first, end_last)
    } else {
        rows(p, begin_first, begin_last) + indent + "...\n"@ + rows(p, end_first, end_last)
    }
}

pub(crate) proof fn lemma_line_starts(s: Seq<char>)
    ensures
        line_starts(s).len() >= 1,
        line_starts(s)[0] == 0,
        line_starts(s).len() <= s.len() + 1,
        forall|i: int, j: int| 0 <= i < j < line_starts(s).len() ==> line_starts(s)[i] < line_starts(s)[j],
        forall|i: int| 0 <= i < line_starts(s).len() ==> 0 <= #[trigger] line_starts(s)[i] <= s.len(),
    decreases s.len(),
{
    if s.len() > 0 {
        lemma_line_starts(s.drop_last());
    }
}

pub(crate) proof fn lemma_line_at(st: Seq<int>, off: int)
    requires
        st.len() >= 1,
        st[0] == 0,
        off >= 0,
    ensures
        0 <= line_at(st, off) < st.len(),
        st[line_at(st, off)] <= off,
    decreases st.len(),
{
    if st.len() > 1 && st.last() > off {
        lemma_line_at(st.drop_last(), off);
    }
}

fn line_starts_exec(v: &Vec<char>) -> (r: Vec<usize>)
    ensures
        r@.map_values(|x: usize| x as int) == line_starts(v@),
{
    let mut r: Vec<usize> = Vec::new();
    r.push(0);
    let mut i: usize = 0;
    proof {
        assert(v@.take(0) =~= Seq::<char>::empty());
        assert(r@.map_values(|x: usize| x as int) =~= seq![0int]);
    }
    while i < v.len()
        invariant
            i <= v.len(),
            r@.map_values(|x: usize| x as int) == line_starts(v@.take(i as int)),
        decreases v.len() - i,
    {
        proof {
            assert(v@.take(i + 1).drop_last() =~= v@.take(i as int));
        }
        if v[i] == '\n' {
            let ghost old = r@;
            r.push(i + 1);
            proof {
                assert(r@.map_values(|x: usize| x as int) =~= old.map_values(|x: usize| x as int).push(i + 1));
            }
        }
        i = i + 1;
    }
    proof {
        assert(v@.take(v@.len() as int) =~= v@);
    }
    r
}

fn line_at_exec(st: &Vec<usize>, off: usize) -> (r: usize)
    requires
        st@.len() >= 1,
    ensures
        r as int == line_at(st@.map_values(|x: usize| x as int), off as int),
{
    let ghost sv = st@.map_values(|x: usize| x as int);
    let mut i: usize = st.len() - 1;
    proof {
        assert(sv.take(st@.len() as int) =~= sv);
    }
    while i >= 1
        invariant
            i < st@.len(),
            sv == st@.map_values(|x: usize| x as int),
            line_at(sv, off as int) == line_at(sv.take(i + 1), off as int),
        decreases i,
    {
        proof {
            assert(sv.take(i + 1).drop_last() =~= sv.take(i as int));
            assert(sv.take(i + 1).last() == st@[i as int] as int);
        }
        if st[i] <= off {
            return i;
        }
        i = i - 1;
    }
    0
}

/// The characters of line `i`.
fn line_exec(v: &Vec<char>, st: &Vec<usize>, i: usize) -> (r: Vec<char>)
    requires
        i < st@.len(),
        forall|k: int| 0 <= k < st@.len() ==> st@[k] <= v@.len(),
        forall|k: int, j: int| 0 <= k < j < st@.len() ==> st@[k] < st@[j],
    ensures
        r@ == line_of(v@, st@.map_values(|x: usize| x as int), i as int),
{
    let a = st[i];
    let end = if st.len() - i > 1 { st[i + 1] } else { v.len() };
    let ghost t = v@.subrange(a as int, end as int);
    let mut b = end;
    if b > a && v[b - 1] == '\n' {
        b = b - 1;
        proof {
            assert(t.drop_last() =~= v@.subrange(a as int, b as int));
        }
    }
    let ghost t1 = strip_one(t, '\n');
    proof {
        assert(t1 == v@.subrange(a as int, b as int));
    }
    if b > a && v[b - 1] == '\r' {
        b = b - 1;
        proof {
            assert(t1.drop_last() =~= v@.subrange(a as int, b as int));
        }
    }
    let mut r: Vec<char> = Vec::new();
    let mut k = a;
    while k < b
        invariant
            a <= k <= b <= v@.len(),
            r@ == v@.subrange(a as int, k as int),
        decreases b - k,
    {
        r.push(v[k]);
        proof {
            assert(r@ =~= v@.subrange(a as int, k + 1));
        }
        k = k + 1;
    }
    r
}

fn push_chars(out: &mut String, v: &Vec<char>, a: usize, b: usize)
    requires
        a <= b <= v@.len(),
    ensures
        final(out)@ == old(out)@ + v@.subrange(a as int, b as int),
{
    let ghost o = out@;
    let mut k = a;
    while k < b
        invariant
            a <= k <= b <= v@.len(),
            out@ == o + v@.subrange(a as int, k as int),
        decreases b - k,
    {
        push_char(out, v[k]);
        proof {
            assert(o + v@.subrange(a as int, k + 1) =~= (o + v@.subrange(a as int, k as int)).push(v@[k as int]));
        }
        k = k + 1;
    }
}

fn push_highlighted(out: &mut String, line: &Vec<char>, a: usize, b: usize)
    ensures
        final(out)@ == old(out)@ + highlighted(line@, a as int, b as int),
{
    let ghost o = out@;
    let n = line.len();
    if n == 0 {
        return;
    }
    let e = if b < n - 1 { b } else { n - 1 };
    if a > e {
        push_chars(out, line, 0, n);
        proof {
            assert(line@.subrange(0, n as int) =~= line@);
        }
        return;
    }
    push_chars(out, line, 0, a);
    push_str(out, "\x1b[1;31m");
    push_chars(out, line, a, e + 1);
    push_str(out, "\x1b[0m");
    push_chars(out, line, e + 1, n);
    proof {
        reveal_strlit("\x1b[1;31m");
        reveal_strlit("\x1b[0m");
        assert(out@ =~= o + highlighted(line@, a as int, b as int));
    }
}

pub(crate) fn push_padded(out: &mut String, n: usize, width: usize)
    ensures
        final(out)@ == old(out)@ + padded(n as nat, width as nat),
{
    let ghost o = out@;
    let mut t = String::new();
    push_decimal(&mut t, n as u128);
    let d = t.as_str().unicode_len();
    let pad = if d < width { width - d } else { 0 };
    let mut k: usize = 0;
    while k < pad
        invariant
            k <= pad,
            out@ == o + Seq::new(k as nat, |i: int| ' '),
        decreases pad - k,
    {
        push_char(out, ' ');
        proof {
            assert(o + Seq::new((k + 1) as nat, |i: int| ' ') =~= (o + Seq::new(k as nat, |i: int| ' ')).push(' '));
        }
        k = k + 1;
    }
    push_str(out, t.as_str());
    proof {
        assert(out@ =~= o + padded(n as nat, width as nat));
    }
}

/// What a snippet is drawn from.
struct SnipE {
    lines: Vec<Vec<char>>,
    width: usize,
    indent: Vec<char>,
    color: bool,
    sl: usize,
    sc: usize,
    el: usize,
    ec: usize,
}

impl SnipE {
    spec fn sv(&self) -> Snip {
        Snip {
            lines: self.lines@.map_values(|l: Vec<char>| l@),
            width: self.width as nat,
            indent: self.indent@,
            color: self.color,
            sl: self.sl as int,
            sc: self.sc as int,
            el: self.el as int,
            ec: self.ec as int,
        }
    }
}

fn push_row(out: &mut String, p: &SnipE, idx: usize)
    requires
        idx < p.lines@.len(),
    ensures
        final(out)@ == old(out)@ + row(p.sv(), idx as int),
{
    let ghost o = out@;
    let line = &p.lines[idx];
    let count = p.lines.len();
    assert(idx + 1 <= count);
    push_chars(out, &p.indent, 0, p.indent.len());
    push_padded(out, idx + 1, p.width);
    push_str(out, " | ");
    if p.color && p.sl <= idx && idx <= p.el {
        let a = if idx == p.sl { p.sc } else { 0 };
        let b = if idx == p.el {
            p.ec
        } else if line.len() > 0 {
            line.len() - 1
        } else {
            0
        };
        push_highlighted(out, line, a, b);
    } else {
        push_chars(out, line, 0, line.len());
    }
    push_str(out, "\n");
    proof {
        assert(p.indent@.subrange(0, p.indent@.len() as int) =~= p.indent@);
        assert(line@.subrange(0, line@.len() as int) =~= line@);
        assert(p.sv().lines[idx as int] == line@);
        assert(out@ =~= o + row(p.sv(), idx as int));
    }
}

fn push_rows(out: &mut String, p: &SnipE, from: usize, to: usize)
    requires
        to < p.lines@.len(),
    ensures
        final(out)@ == old(out)@ + rows(p.sv(), from as int, to as int),
{
    let ghost o = out@;
    let mut idx = from;
    proof {
        if from <= to {
            assert(rows(p.sv(), from as int, from - 1) == Seq::<char>::empty());
        }
        assert(out@ =~= o + Seq::<char>::empty());
    }
    if from > to {
        return;
    }
    let count = p.lines.len();
    while idx <= to
        invariant
            from <= idx <= to + 1,
            to < p.lines@.len(),
            count == p.lines@.len(),
            out@ == o + rows(p.sv(), from as int, idx - 1),
        decreases to + 1 - idx,
    {
        push_row(out, p, idx);
        proof {
            assert(o + rows(p.sv(), from as int, idx as int) =~= o + rows(p.sv(), from as int, idx - 1) + row(
                p.sv(),
                idx as int,
            ));
        }
        idx = idx + 1;
    }
}

/// The lines of `source` around the span `[start, end)`, numbered, with
/// the span highlighted when `color`; see `snippet`.
pub fn format_snippet(source: &str, start: usize, end: usize, indent: &str, color: bool) -> (r: String)
    ensures
        r@ == snippet(source@, start as int, end as int, indent@, color),
{
    let v = chars_of(source);
    let st = line_starts_exec(&v);
    let ghost sv = st@.map_values(|x: usize| x as int);
    proof {
        lemma_line_starts(v@);
        assert forall|k: int| 0 <= k < st@.len() implies st@[k] <= v@.len() by {
            assert(sv[k] == st@[k] as int);
        }
        assert forall|k: int, j: int| 0 <= k < j < st@.len() implies st@[k] < st@[j] by {
            assert(sv[k] == st@[k] as int);
            assert(sv[j] == st@[j] as int);
        }
    }
    let total = st.len();
    let n = v.len();
    let ss = if start < n { start } else { n };
    let se = if end < n { end } else { n };
    let last = if se > ss { se - 1 } else { ss };
    let sl = line_at_exec(&st, ss);
    let el = line_at_exec(&st, last);
    proof {
        lemma_line_at(sv, ss as int);
        lemma_line_at(sv, last as int);
        assert(sv[sl as int] == st@[sl as int] as int);
        assert(sv[el as int] == st@[el as int] as int);
    }
    let begin_first = if sl >= 1 { sl - 1 } else { 0 };
    let begin_last = if sl + 1 < total - 1 { sl + 1 } else { total - 1 };
    let end_first = if el >= 1 { el - 1 } else { 0 };
    let end_last = if el + 1 < total - 1 { el + 1 } else { total - 1 };
    let mut digits = String::new();
    push_decimal(&mut digits, (end_last + 1) as u128);
    let width = digits.as_str().unicode_len();
    let mut lines: Vec<Vec<char>> = Vec::new();
    let mut i: usize = 0;
    while i < total
        invariant
            i <= total,
            total == st@.len(),
            sv == st@.map_values(|x: usize| x as int),
            forall|k: int| 0 <= k < st@.len() ==> st@[k] <= v@.len(),
            forall|k: int, j: int| 0 <= k < j < st@.len() ==> st@[k] < st@[j],
            lines@.len() == i,
            forall|k: int| 0 <= k < i ==> (#[trigger] lines@[k])@ == line_of(v@, sv, k),
        decreases total - i,
    {
        lines.push(line_exec(&v, &st, i));
        i = i + 1;
    }
    let p = SnipE {
        lines,
        width,
        indent: chars_of(indent),
        color,
        sl,
        sc: ss - st[sl],
        el,
        ec: last - st[el],
    };
    proof {
        assert(p.sv().lines =~= Seq::new(total as nat, |k: int| line_of(source@, sv, k)));
    }
    let mut out = String::new();
    if end_first <= begin_last || end_first - begin_last <= 3 {
        push_rows(&mut out, &p, begin_first, end_last);
    } else {
        push_rows(&mut out, &p, begin_first, begin_last);
        push_str(&mut out, indent);
        push_str(&mut out, "...\n");
        push_rows(&mut out, &p, end_first, end_last);
    }
    proof {
        assert(out@ =~= snippet(source@, start as int, end as int, indent@, color));
    }
    out
}

} // verus!
