//! Counts of what was added to a ninja file, per rule and per output, and
//! the summary table that reports them.

use vstd::prelude::*;
use crate::path::{all_parts, path_join, VirtPath, VirtPathView};
use crate::snippet::{padded, push_padded};
use crate::text::{lemma_seq_lt_asym, lemma_seq_lt_trans, push_char, push_str, seq_lt, str_lt};

verus! {

/* A tally is a sequence of (key, count) pairs, in the order the keys
   were first added. */

/// The position of the first entry of the tally `s` with key `k`, or -1.
pub open spec fn key_index<K>(s: Seq<(K, nat)>, k: K) -> int
    decreases s.len(),
{
    if s.len() == 0 {
        -1
    } else if s[0].0 == k {
        0
    } else {
        let r = key_index(s.drop_first(), k);
        if r < 0 { -1 } else { r + 1 }
    }
}

/// How often `k` was added to the tally `s`.
pub open spec fn count_of<K>(s: Seq<(K, nat)>, k: K) -> nat {
    let p = key_index(s, k);
    if p < 0 { 0 } else { s[p].1 }
}

/// One more, except that a count stops at the largest `usize`.
pub open spec fn sat_inc(n: nat) -> nat {
    if n < usize::MAX { n + 1 } else { n }
}

/// The tally `s` after one more addition of `k`: its count goes up by one,
/// or it joins the end with a count of one.
pub open spec fn bump<K>(s: Seq<(K, nat)>, k: K) -> Seq<(K, nat)> {
    let p = key_index(s, k);
    if p < 0 {
        s.push((k, 1))
    } else {
        s.update(p, (k, sat_inc(s[p].1)))
    }
}

/// No key occurs twice in the tally.
pub open spec fn keys_distinct<K>(s: Seq<(K, nat)>) -> bool {
    forall|i: int, j: int| 0 <= i < j < s.len() ==> s[i].0 != s[j].0
}

proof fn lemma_key_index<K>(s: Seq<(K, nat)>, k: K)
    ensures
        -1 <= key_index(s, k) < s.len(),
        key_index(s, k) >= 0 ==> s[key_index(s, k)].0 == k,
        key_index(s, k) < 0 ==> forall|i: int| 0 <= i < s.len() ==> s[i].0 != k,
    decreases s.len(),
{
    if s.len() > 0 && s[0].0 != k {
        lemma_key_index(s.drop_first(), k);
        assert forall|i: int| 0 < i < s.len() implies s[i].0 == s.drop_first()[i - 1].0 by {}
    }
}

/// `key_index` only looks at the keys.
proof fn lemma_key_index_same_keys<K>(s: Seq<(K, nat)>, t: Seq<(K, nat)>, k: K)
    requires
        s.len() == t.len(),
        forall|i: int| 0 <= i < s.len() ==> s[i].0 == t[i].0,
    ensures
        key_index(s, k) == key_index(t, k),
    decreases s.len(),
{
    if s.len() > 0 {
        lemma_key_index_same_keys(s.drop_first(), t.drop_first(), k);
    }
}

proof fn lemma_key_index_push<K>(s: Seq<(K, nat)>, e: (K, nat), k: K)
    ensures
        key_index(s.push(e), k) == if key_index(s, k) >= 0 {
            key_index(s, k)
        } else if e.0 == k {
            s.len() as int
        } else {
            -1
        },
    decreases s.len(),
{
    if s.len() == 0 {
        assert(s.push(e).drop_first() =~= s);
    } else {
        assert(s.push(e)[0] == s[0]);
        assert(s.push(e).drop_first() =~= s.drop_first().push(e));
        lemma_key_index_push(s.drop_first(), e, k);
    }
}

/// Adding `k` to a tally adds one to the count of `k` (up to the largest
/// `usize`) and leaves every other count as it was.
pub proof fn lemma_bump_count<K>(s: Seq<(K, nat)>, k: K, x: K)
    ensures
        count_of(bump(s, k), x) == if x == k { sat_inc(count_of(s, k)) } else { count_of(s, x) },
{
    lemma_key_index(s, k);
    lemma_key_index(s, x);
    let p = key_index(s, k);
    if p < 0 {
        lemma_key_index_push(s, (k, 1), x);
    } else {
        let t = s.update(p, (k, sat_inc(s[p].1)));
        lemma_key_index_same_keys(s, t, x);
    }
}

/// Adding to a tally whose keys are distinct keeps them distinct.
pub proof fn lemma_bump_distinct<K>(s: Seq<(K, nat)>, k: K)
    requires
        keys_distinct(s),
    ensures
        keys_distinct(bump(s, k)),
{
    lemma_key_index(s, k);
}

/* The summary table. */

/// Whether entry `a` is listed before entry `b`: a higher count first,
/// then by name.
pub open spec fn goes_before(a: (Seq<char>, nat), b: (Seq<char>, nat)) -> bool {
    a.1 > b.1 || (a.1 == b.1 && seq_lt(a.0, b.0))
}

/// `x` put into `s` before the first entry that it goes before.
pub open spec fn insert_sorted(s: Seq<(Seq<char>, nat)>, x: (Seq<char>, nat)) -> Seq<(Seq<char>, nat)>
    decreases s.len(),
{
    if s.len() == 0 {
        seq![x]
    } else if goes_before(x, s[0]) {
        seq![x] + s
    } else {
        seq![s[0]] + insert_sorted(s.drop_first(), x)
    }
}

/// The entries in the order the summary lists them (a stable insertion
/// sort by `goes_before`).
pub open spec fn sort_entries(s: Seq<(Seq<char>, nat)>) -> Seq<(Seq<char>, nat)>
    decreases s.len(),
{
    if s.len() == 0 {
        s
    } else {
        insert_sorted(sort_entries(s.drop_last()), s.last())
    }
}

/// The dashes under a table's header.
pub open spec fn dashes(n: nat) -> Seq<char> {
    Seq::new(n, |i: int| '-')
}

/// The line of one entry: the count right-aligned in eight columns, then
/// the name.
pub open spec fn entry_line(e: (Seq<char>, nat)) -> Seq<char> {
    "  "@ + padded(e.1, 8) + " | "@ + e.0
}

/// One table of the summary: its title, then `<none>`, or a header, a rule
/// of dashes and a line per entry.
pub open spec fn table(title: Seq<char>, column: Seq<char>, entries: Seq<(Seq<char>, nat)>) -> Seq<Seq<char>> {
    if entries.len() == 0 {
        seq![title, "  <none>"@]
    } else {
        seq![title, "     count | "@ + column, "  "@ + dashes(11 + column.len())] + entries.map_values(
            |e: (Seq<char>, nat)| entry_line(e),
        )
    }
}

/// The lines of the summary: the rules, then the outputs by their file
/// system path, each sorted.
pub open spec fn summary(v: NinjaFileStatsView) -> Seq<Seq<char>> {
    table("stats rules added:"@, "rule"@, sort_entries(v.rules)) + table(
        "stats outputs added:"@,
        "output"@,
        sort_entries(
            v.outputs.map_values(|e: (VirtPathView, nat)| (path_join(e.0.root, all_parts(e.0)), e.1)),
        ),
    )
}

proof fn lemma_insert_sorted_at(s: Seq<(Seq<char>, nat)>, x: (Seq<char>, nat), p: int)
    requires
        0 <= p <= s.len(),
        forall|j: int| 0 <= j < p ==> !goes_before(x, #[trigger] s[j]),
        p < s.len() ==> goes_before(x, s[p]),
    ensures
        insert_sorted(s, x) == s.insert(p, x),
    decreases s.len(),
{
    if s.len() == 0 {
        assert(s.insert(p, x) =~= seq![x]);
    } else if p == 0 {
        assert(s.insert(p, x) =~= seq![x] + s);
    } else {
        let t = s.drop_first();
        assert forall|j: int| 0 <= j < p - 1 implies !goes_before(x, #[trigger] t[j]) by {
            assert(t[j] == s[j + 1]);
        }
        lemma_insert_sorted_at(t, x, p - 1);
        assert(s.insert(p, x) =~= seq![s[0]] + t.insert(p - 1, x));
    }
}

/// No entry is listed after one that it goes before.
pub open spec fn listed_in_order(r: Seq<(Seq<char>, nat)>) -> bool {
    forall|i: int, j: int| 0 <= i < j < r.len() ==> !goes_before(#[trigger] r[j], #[trigger] r[i])
}

/// The first position in `s` of an entry that `x` goes before, or the end.
pub open spec fn first_after(s: Seq<(Seq<char>, nat)>, x: (Seq<char>, nat)) -> int
    decreases s.len(),
{
    if s.len() == 0 || goes_before(x, s[0]) {
        0
    } else {
        1 + first_after(s.drop_first(), x)
    }
}

proof fn lemma_first_after(s: Seq<(Seq<char>, nat)>, x: (Seq<char>, nat))
    ensures
        0 <= first_after(s, x) <= s.len(),
        forall|j: int| 0 <= j < first_after(s, x) ==> !goes_before(x, #[trigger] s[j]),
        first_after(s, x) < s.len() ==> goes_before(x, s[first_after(s, x)]),
    decreases s.len(),
{
    if s.len() > 0 && !goes_before(x, s[0]) {
        let t = s.drop_first();
        lemma_first_after(t, x);
        assert forall|j: int| 0 <= j < first_after(s, x) implies !goes_before(x, #[trigger] s[j]) by {
            if j > 0 {
                assert(s[j] == t[j - 1]);
            }
        }
        if first_after(s, x) < s.len() {
            assert(s[first_after(s, x)] == t[first_after(t, x)]);
        }
    }
}

proof fn lemma_goes_before_trans(a: (Seq<char>, nat), b: (Seq<char>, nat), c: (Seq<char>, nat))
    requires
        goes_before(a, b),
        goes_before(b, c),
    ensures
        goes_before(a, c),
{
    if a.1 == b.1 && b.1 == c.1 {
        lemma_seq_lt_trans(a.0, b.0, c.0);
    }
}

proof fn lemma_goes_before_asym(a: (Seq<char>, nat), b: (Seq<char>, nat))
    requires
        goes_before(a, b),
    ensures
        !goes_before(b, a),
{
    if a.1 == b.1 {
        lemma_seq_lt_asym(a.0, b.0);
    }
}

proof fn lemma_insert_in_order(s: Seq<(Seq<char>, nat)>, x: (Seq<char>, nat))
    requires
        listed_in_order(s),
    ensures
        listed_in_order(insert_sorted(s, x)),
        insert_sorted(s, x).to_multiset() == s.to_multiset().insert(x),
{
    broadcast use vstd::seq_lib::group_to_multiset_ensures;

    lemma_first_after(s, x);
    let p = first_after(s, x);
    lemma_insert_sorted_at(s, x, p);
    let r = s.insert(p, x);
    assert(r.len() == s.len() + 1);
    assert forall|i: int, j: int| 0 <= i < j < r.len() implies !goes_before(#[trigger] r[j], #[trigger] r[i]) by {
        if j < p {
            assert(r[i] == s[i] && r[j] == s[j]);
        } else if j == p {
            assert(r[i] == s[i] && r[j] == x);
        } else if i < p {
            assert(r[i] == s[i] && r[j] == s[j - 1]);
        } else if i == p {
            assert(r[i] == x && r[j] == s[j - 1]);
            if j - 1 == p {
                lemma_goes_before_asym(x, s[p]);
            } else if goes_before(s[j - 1], x) {
                lemma_goes_before_trans(s[j - 1], x, s[p]);
            }
        } else {
            assert(r[i] == s[i - 1] && r[j] == s[j - 1]);
        }
    }
}

/// The summary lists every entry exactly once, by descending count and,
/// among equal counts, by name.
pub proof fn lemma_summary_order(s: Seq<(Seq<char>, nat)>)
    ensures
        listed_in_order(sort_entries(s)),
        sort_entries(s).to_multiset() == s.to_multiset(),
    decreases s.len(),
{
    broadcast use vstd::seq_lib::group_to_multiset_ensures;

    if s.len() == 0 {
        assert(s.to_multiset() =~= vstd::multiset::Multiset::<(Seq<char>, nat)>::empty());
    } else {
        lemma_summary_order(s.drop_last());
        lemma_insert_in_order(sort_entries(s.drop_last()), s.last());
        assert(s =~= s.drop_last().push(s.last()));
    }
}

/* Executable parts. */

/// The counts of a tally as plain numbers.
pub open spec fn entries_v(s: Seq<(String, usize)>) -> Seq<(Seq<char>, nat)> {
    s.map_values(|e: (String, usize)| (e.0@, e.1 as nat))
}

/// The counts of what was added to a ninja file: how often each rule and
/// each output was added.
pub struct NinjaFileStats {
    rule_additions: Vec<(String, usize)>,
    output_additions: Vec<(VirtPath, usize)>,
}

/// The tallies of a `NinjaFileStats`, in the order the keys were first
/// added.
pub struct NinjaFileStatsView {
    pub rules: Seq<(Seq<char>, nat)>,
    pub outputs: Seq<(VirtPathView, nat)>,
}

impl View for NinjaFileStats {
    type V = NinjaFileStatsView;

    closed spec fn view(&self) -> NinjaFileStatsView {
        NinjaFileStatsView {
            rules: entries_v(self.rule_additions@),
            outputs: self.output_additions@.map_values(|e: (VirtPath, usize)| (e.0@, e.1 as nat)),
        }
    }
}

impl NinjaFileStats {
    /// No key is counted twice.
    pub open spec fn wf(&self) -> bool {
        keys_distinct(self@.rules) && keys_distinct(self@.outputs)
    }

    /// How often the rule `name` was added.
    pub open spec fn rule_count(&self, name: Seq<char>) -> nat {
        count_of(self@.rules, name)
    }

    /// How often the output `p` was added.
    pub open spec fn output_count(&self, p: VirtPathView) -> nat {
        count_of(self@.outputs, p)
    }

    /// Counts one more addition of the rule `rule_name`.
    pub fn record_rule_addition(&mut self, rule_name: &str)
        ensures
            final(self)@.rules == bump(old(self)@.rules, rule_name@),
            final(self)@.outputs == old(self)@.outputs,
            old(self).wf() ==> final(self).wf(),
            forall|x: Seq<char>|
                #[trigger] final(self).rule_count(x) == if x == rule_name@ {
                    sat_inc(old(self).rule_count(x))
                } else {
                    old(self).rule_count(x)
                },
    {
        let ghost s = self@.rules;
        let ghost outs = self@.outputs;
        let mut i: usize = 0;
        proof {
            assert(s.skip(0) =~= s);
        }
        while i < self.rule_additions.len()
            invariant
                i <= self.rule_additions@.len(),
                s == entries_v(self.rule_additions@),
                s == old(self)@.rules,
                outs == old(self)@.outputs,
                self.output_additions@ == old(self).output_additions@,
                self.rule_additions@ == old(self).rule_additions@,
                key_index(s, rule_name@) == if key_index(s.skip(i as int), rule_name@) < 0 {
                    -1
                } else {
                    key_index(s.skip(i as int), rule_name@) + i
                },
            decreases self.rule_additions.len() - i,
        {
            proof {
                assert(s.skip(i as int).drop_first() =~= s.skip(i + 1));
                assert(s.skip(i as int)[0] == s[i as int]);
            }
            if crate::text::str_eq(self.rule_additions[i].0.as_str(), rule_name) {
                let c = self.rule_additions[i].1;
                let c2 = if c < usize::MAX { c + 1 } else { c };
                let name = self.rule_additions[i].0.clone();
                self.rule_additions.set(i, (name, c2));
                proof {
                    assert(entries_v(self.rule_additions@) =~= bump(s, rule_name@));
                    assert(self@.outputs =~= outs);
                    assert forall|x: Seq<char>| #[trigger] self.rule_count(x) == if x == rule_name@ {
                        sat_inc(count_of(s, x))
                    } else {
                        count_of(s, x)
                    } by {
                        lemma_bump_count(s, rule_name@, x);
                    }
                    if keys_distinct(s) {
                        lemma_bump_distinct(s, rule_name@);
                    }
                }
                return;
            }
            i = i + 1;
        }
        let name = crate::text::copy_str(rule_name);
        self.rule_additions.push((name, 1));
        proof {
            assert(entries_v(self.rule_additions@) =~= bump(s, rule_name@));
            assert(self@.outputs =~= outs);
            assert forall|x: Seq<char>| #[trigger] self.rule_count(x) == if x == rule_name@ {
                sat_inc(count_of(s, x))
            } else {
                count_of(s, x)
            } by {
                lemma_bump_count(s, rule_name@, x);
            }
            if keys_distinct(s) {
                lemma_bump_distinct(s, rule_name@);
            }
        }
    }

    /// Counts one more addition of the output `output`.
    pub fn record_output_addition(&mut self, output: &VirtPath)
        ensures
            final(self)@.outputs == bump(old(self)@.outputs, output@),
            final(self)@.rules == old(self)@.rules,
            old(self).wf() ==> final(self).wf(),
            forall|x: VirtPathView|
                #[trigger] final(self).output_count(x) == if x == output@ {
                    sat_inc(old(self).output_count(x))
                } else {
                    old(self).output_count(x)
                },
    {
        let ghost s = self@.outputs;
        let ghost rules = self@.rules;
        let mut i: usize = 0;
        proof {
            assert(s.skip(0) =~= s);
        }
        while i < self.output_additions.len()
            invariant
                i <= self.output_additions@.len(),
                s == self.output_additions@.map_values(|e: (VirtPath, usize)| (e.0@, e.1 as nat)),
                s == old(self)@.outputs,
                rules == old(self)@.rules,
                self.output_additions@ == old(self).output_additions@,
                self.rule_additions@ == old(self).rule_additions@,
                key_index(s, output@) == if key_index(s.skip(i as int), output@) < 0 {
                    -1
                } else {
                    key_index(s.skip(i as int), output@) + i
                },
            decreases self.output_additions.len() - i,
        {
            proof {
                assert(s.skip(i as int).drop_first() =~= s.skip(i + 1));
                assert(s.skip(i as int)[0] == s[i as int]);
            }
            if self.output_additions[i].0.same_as(output) {
                let c = self.output_additions[i].1;
                let c2 = if c < usize::MAX { c + 1 } else { c };
                let p = self.output_additions[i].0.copy();
                self.output_additions.set(i, (p, c2));
                proof {
                    assert(self@.outputs =~= bump(s, output@));
                    assert(self@.rules =~= rules);
                    assert forall|x: VirtPathView| #[trigger] self.output_count(x) == if x == output@ {
                        sat_inc(count_of(s, x))
                    } else {
                        count_of(s, x)
                    } by {
                        lemma_bump_count(s, output@, x);
                    }
                    if keys_distinct(s) {
                        lemma_bump_distinct(s, output@);
                    }
                }
                return;
            }
            i = i + 1;
        }
        self.output_additions.push((output.copy(), 1));
        proof {
            assert(self@.outputs =~= bump(s, output@));
            assert(self@.rules =~= rules);
            assert forall|x: VirtPathView| #[trigger] self.output_count(x) == if x == output@ {
                sat_inc(count_of(s, x))
            } else {
                count_of(s, x)
            } by {
                lemma_bump_count(s, output@, x);
            }
            if keys_distinct(s) {
                lemma_bump_distinct(s, output@);
            }
        }
    }

    /// The lines that the summary of these counts consists of, in order:
    /// see `summary`.
    pub fn log_summary(&self) -> (r: Vec<String>)
        ensures
            r.deep_view() == summary(self@),
    {
        let rules = sort_entries_exec(&self.rule_additions);
        let mut outs: Vec<(String, usize)> = Vec::new();
        let mut i: usize = 0;
        while i < self.output_additions.len()
            invariant
                i <= self.output_additions@.len(),
                outs@.len() == i,
                forall|j: int|
                    0 <= j < i ==> #[trigger] entries_v(outs@)[j] == (
                        path_join(self.output_additions@[j].0@.root, all_parts(self.output_additions@[j].0@)),
                        self.output_additions@[j].1 as nat,
                    ),
            decreases self.output_additions.len() - i,
        {
            let p = self.output_additions[i].0.to_path_buf();
            let ghost o = outs@;
            outs.push((p, self.output_additions[i].1));
            proof {
                assert forall|j: int| 0 <= j < i + 1 implies #[trigger] entries_v(outs@)[j] == (
                    path_join(self.output_additions@[j].0@.root, all_parts(self.output_additions@[j].0@)),
                    self.output_additions@[j].1 as nat,
                ) by {
                    if j < i {
                        assert(outs@[j] == o[j]);
                        assert(entries_v(o)[j] == entries_v(outs@)[j]);
                    }
                }
            }
            i = i + 1;
        }
        proof {
            assert(entries_v(outs@) =~= self@.outputs.map_values(
                |e: (VirtPathView, nat)| (path_join(e.0.root, all_parts(e.0)), e.1),
            ));
        }
        let outs = sort_entries_exec(&outs);
        proof {
            reveal_strlit("rule");
            reveal_strlit("output");
        }
        let mut r = table_lines("stats rules added:", "rule", &rules);
        let mut r2 = table_lines("stats outputs added:", "output", &outs);
        let ghost a = r.deep_view();
        let ghost b = r2.deep_view();
        r.append(&mut r2);
        proof {
            assert(r.deep_view() =~= a + b);
        }
        r
    }
}

impl Default for NinjaFileStats {
    fn default() -> (r: Self)
        ensures
            r@.rules == Seq::<(Seq<char>, nat)>::empty(),
            r@.outputs == Seq::<(VirtPathView, nat)>::empty(),
            r.wf(),
    {
        let r = NinjaFileStats { rule_additions: Vec::new(), output_additions: Vec::new() };
        proof {
            assert(r@.rules =~= Seq::<(Seq<char>, nat)>::empty());
            assert(r@.outputs =~= Seq::<(VirtPathView, nat)>::empty());
        }
        r
    }
}

fn goes_before_exec(a: &(String, usize), b: &(String, usize)) -> (r: bool)
    ensures
        r == goes_before((a.0@, a.1 as nat), (b.0@, b.1 as nat)),
{
    a.1 > b.1 || (a.1 == b.1 && str_lt(a.0.as_str(), b.0.as_str()))
}

fn sort_entries_exec(v: &Vec<(String, usize)>) -> (r: Vec<(String, usize)>)
    ensures
        entries_v(r@) == sort_entries(entries_v(v@)),
{
    let ghost sv = entries_v(v@);
    let mut out: Vec<(String, usize)> = Vec::new();
    let mut i: usize = 0;
    proof {
        assert(sv.take(0) =~= Seq::<(Seq<char>, nat)>::empty());
        assert(entries_v(out@) =~= Seq::<(Seq<char>, nat)>::empty());
    }
    while i < v.len()
        invariant
            i <= v@.len(),
            sv == entries_v(v@),
            entries_v(out@) == sort_entries(sv.take(i as int)),
        decreases v.len() - i,
    {
        let ghost so = entries_v(out@);
        let ghost xv = sv[i as int];
        let mut p: usize = 0;
        while p < out.len() && !goes_before_exec(&v[i], &out[p])
            invariant
                p <= out@.len(),
                i < v@.len(),
                so == entries_v(out@),
                xv == (v@[i as int].0@, v@[i as int].1 as nat),
                forall|j: int| 0 <= j < p ==> !goes_before(xv, #[trigger] so[j]),
            decreases out.len() - p,
        {
            p = p + 1;
        }
        proof {
            lemma_insert_sorted_at(so, xv, p as int);
            assert(sv.take(i + 1).drop_last() =~= sv.take(i as int));
            assert(sv.take(i + 1).last() == xv);
        }
        let x = (v[i].0.clone(), v[i].1);
        out.insert(p, x);
        proof {
            assert(entries_v(out@) =~= so.insert(p as int, xv));
        }
        i = i + 1;
    }
    proof {
        assert(sv.take(v@.len() as int) =~= sv);
    }
    out
}

fn table_lines(title: &str, column: &str, entries: &Vec<(String, usize)>) -> (r: Vec<String>)
    requires
        column@.len() <= 16,
    ensures
        r.deep_view() == table(title@, column@, entries_v(entries@)),
{
    let mut r: Vec<String> = Vec::new();
    let mut t = String::new();
    push_str(&mut t, title);
    r.push(t);
    if entries.len() == 0 {
        let mut n = String::new();
        push_str(&mut n, "  <none>");
        r.push(n);
        proof {
            assert(r.deep_view() =~= table(title@, column@, entries_v(entries@)));
        }
        return r;
    }
    let mut h = String::new();
    push_str(&mut h, "     count | ");
    push_str(&mut h, column);
    r.push(h);
    let mut d = String::new();
    push_str(&mut d, "  ");
    let w = column.unicode_len();
    let ghost d0 = d@;
    let mut k: usize = 0;
    while k < w + 11
        invariant
            w == column@.len(),
            w <= 16,
            k <= w + 11,
            d@ == d0 + dashes(k as nat),
        decreases w + 11 - k,
    {
        push_char(&mut d, '-');
        proof {
            assert(d0 + dashes((k + 1) as nat) =~= (d0 + dashes(k as nat)).push('-'));
        }
        k = k + 1;
    }
    r.push(d);
    let ghost head = r.deep_view();
    proof {
        assert(head =~= seq![title@, "     count | "@ + column@, "  "@ + dashes(11 + column@.len())]);
    }
    let mut i: usize = 0;
    while i < entries.len()
        invariant
            i <= entries@.len(),
            r.deep_view() == head + entries_v(entries@).take(i as int).map_values(
                |e: (Seq<char>, nat)| entry_line(e),
            ),
        decreases entries.len() - i,
    {
        let mut line = String::new();
        push_str(&mut line, "  ");
        push_padded(&mut line, entries[i].1, 8);
        push_str(&mut line, " | ");
        push_str(&mut line, entries[i].0.as_str());
        let ghost before = r.deep_view();
        r.push(line);
        proof {
            let ev = entries_v(entries@);
            assert(ev[i as int] == (entries@[i as int].0@, entries@[i as int].1 as nat));
            assert(ev.take(i + 1).map_values(|e: (Seq<char>, nat)| entry_line(e)) =~= ev.take(
                i as int,
            ).map_values(|e: (Seq<char>, nat)| entry_line(e)).push(entry_line(ev[i as int])));
            assert(r.deep_view() =~= before.push(entry_line(ev[i as int])));
        }
        i = i + 1;
    }
    proof {
        assert(entries_v(entries@).take(entries@.len() as int) =~= entries_v(entries@));
    }
    r
}

} // verus!
