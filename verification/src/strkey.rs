use vstd::prelude::*;
use crate::text::{copy_str, str_eq};

verus! {

/// An interned string: an index into the `StrKeyPool` that produced it.
#[derive(Clone, Copy, Debug, PartialEq, Eq, PartialOrd, Ord, Hash)]
pub struct StrKey(usize);

/// A string interner: every distinct string it has seen has exactly one key,
/// its position in the pool.
pub struct StrKeyPool {
    idx_to_str: Vec<String>,
}

/// Whether no string occurs twice in `strs`.
pub open spec fn all_distinct(strs: Seq<Seq<char>>) -> bool {
    forall|i: int, j: int| 0 <= i < strs.len() && 0 <= j < strs.len() && i != j ==> strs[i] != strs[j]
}

/// The pool and the key that interning `s` into the pool `pool` gives: the
/// position of `s` when it is already there, else the pool with `s`
/// appended and the new last position.
pub open spec fn spec_intern(pool: Seq<Seq<char>>, s: Seq<char>) -> (Seq<Seq<char>>, int) {
    if exists|i: int| 0 <= i < pool.len() && pool[i] == s {
        (pool, choose|i: int| 0 <= i < pool.len() && pool[i] == s)
    } else {
        (pool.push(s), pool.len() as int)
    }
}

impl StrKey {
    /// The position of this key in its pool.
    pub closed spec fn id(self) -> int {
        self.0 as int
    }

    pub fn get_raw_id(&self) -> (r: usize)
        ensures
            r == self.id(),
    {
        self.0
    }

    pub fn from_raw_id(id: usize) -> (r: StrKey)
        ensures
            r.id() == id,
    {
        StrKey(id)
    }
}

/// A key is its position: two keys are the same exactly when their
/// positions are, so `from_raw_id(k.get_raw_id())` gives back `k`.
pub proof fn lemma_key_id_injective(a: StrKey, b: StrKey)
    ensures
        (a.id() == b.id()) <==> (a == b),
        0 <= a.id(),
{
}

impl StrKeyPool {
    /// The interned strings, in key order.
    pub closed spec fn strings(&self) -> Seq<Seq<char>> {
        self.idx_to_str.deep_view()
    }

    /// No string is interned twice.
    #[verifier::type_invariant]
    spec fn distinct_strings(&self) -> bool {
        all_distinct(self.idx_to_str.deep_view())
    }

    /// No string of the pool is interned twice.
    pub fn check_distinct(&self)
        ensures
            all_distinct(self.strings()),
    {
        proof {
            use_type_invariant(self);
        }
    }

    pub fn new() -> (r: StrKeyPool)
        ensures
            all_distinct(r.strings()),
            r.strings() == Seq::<Seq<char>>::empty(),
    {
        let r = StrKeyPool { idx_to_str: Vec::new() };
        assert(r.strings() =~= Seq::<Seq<char>>::empty());
        r
    }

    /// The key of `s`, interning it first when it is new.
    pub fn get(&mut self, s: &str) -> (k: StrKey)
        ensures
            all_distinct(old(self).strings()),
            all_distinct(final(self).strings()),
            (final(self).strings(), k.id()) == spec_intern(old(self).strings(), s@),
    {
        proof {
            use_type_invariant(&*self);
        }
        let n = self.idx_to_str.len();
        let mut i: usize = 0;
        while i < n
            invariant
                i <= n == self.idx_to_str@.len(),
                self.strings() == old(self).strings(),
                all_distinct(self.strings()),
                forall|j: int| 0 <= j < i ==> self.strings()[j] != s@,
            decreases n - i,
        {
            if str_eq(self.idx_to_str[i].as_str(), s) {
                let ghost pool = self.strings();
                assert(pool[i as int] == s@);
                assert(exists|j: int| 0 <= j < pool.len() && pool[j] == s@);
                let ghost c = choose|j: int| 0 <= j < pool.len() && pool[j] == s@;
                assert(c == i);
                return StrKey(i);
            }
            i = i + 1;
        }
        let ghost old_pool = self.strings();
        let t = copy_str(s);
        assert(all_distinct(old_pool.push(s@))) by {
            assert forall|a: int, b: int| 0 <= a < old_pool.len() + 1 && 0 <= b < old_pool.len() + 1 && a != b
                implies old_pool.push(s@)[a] != old_pool.push(s@)[b] by {
                if a < old_pool.len() && b < old_pool.len() {
                } else if a == old_pool.len() {
                    assert(old_pool[b] != s@);
                } else {
                    assert(old_pool[a] != s@);
                }
            }
        }
        let mut v: Vec<String> = Vec::new();
        assert(v.deep_view() =~= Seq::<Seq<char>>::empty());
        std::mem::swap(&mut v, &mut self.idx_to_str);
        v.push(t);
        assert(v.deep_view() =~= old_pool.push(s@));
        self.idx_to_str = v;
        assert(self.strings() =~= old_pool.push(s@));
        StrKey(n)
    }

    /// The string `key` stands for; the key must come from this pool.
    pub fn as_string(&self, key: &StrKey) -> (r: String)
        requires
            0 <= key.id() < self.strings().len(),
        ensures
            r@ == self.strings()[key.id()],
    {
        self.idx_to_str[key.0].clone()
    }

    /// The string `key` stands for, or `None` when the key is not one of
    /// this pool's.
    pub fn try_as_string(&self, key: &StrKey) -> (r: Option<String>)
        ensures
            r is Some <==> 0 <= key.id() < self.strings().len(),
            r matches Some(s) ==> s@ == self.strings()[key.id()],
    {
        if key.0 < self.idx_to_str.len() {
            Some(self.idx_to_str[key.0].clone())
        } else {
            None
        }
    }
}

/// Interning the same string twice gives the same key and leaves the pool
/// as the first interning left it.
pub proof fn lemma_intern_idempotent(pool: Seq<Seq<char>>, s: Seq<char>)
    requires
        all_distinct(pool),
    ensures
        spec_intern(spec_intern(pool, s).0, s) == spec_intern(pool, s),
{
    let (p1, k1) = spec_intern(pool, s);
    if exists|i: int| 0 <= i < pool.len() && pool[i] == s {
    } else {
        assert(p1[pool.len() as int] == s);
        let k2 = choose|i: int| 0 <= i < p1.len() && p1[i] == s;
        assert(k2 == pool.len()) by {
            if k2 < pool.len() {
                assert(pool[k2] == s);
            }
        }
    }
}

/// Interning keeps the strings distinct, and the key stands for the string.
pub proof fn lemma_intern_resolves(pool: Seq<Seq<char>>, s: Seq<char>)
    requires
        all_distinct(pool),
    ensures
        all_distinct(spec_intern(pool, s).0),
        0 <= spec_intern(pool, s).1 < spec_intern(pool, s).0.len(),
        spec_intern(pool, s).0[spec_intern(pool, s).1] == s,
{
}

/// Two different strings interned one after the other get different keys.
pub proof fn lemma_intern_distinct(pool: Seq<Seq<char>>, a: Seq<char>, b: Seq<char>)
    requires
        all_distinct(pool),
        a != b,
    ensures
        spec_intern(pool, a).1 != spec_intern(spec_intern(pool, a).0, b).1,
{
    let (p1, ka) = spec_intern(pool, a);
    lemma_intern_resolves(pool, a);
    lemma_intern_resolves(p1, b);
    let (p2, kb) = spec_intern(p1, b);
    if exists|i: int| 0 <= i < p1.len() && p1[i] == b {
    } else {
        assert(p2 == p1.push(b));
    }
}

/// Interning two strings one after the other gives the same key exactly
/// when the strings are the same.
pub proof fn lemma_intern_keys_equal(pool: Seq<Seq<char>>, a: Seq<char>, b: Seq<char>)
    requires
        all_distinct(pool),
    ensures
        (spec_intern(pool, a).1 == spec_intern(spec_intern(pool, a).0, b).1) <==> (a == b),
{
    if a == b {
        lemma_intern_idempotent(pool, a);
    } else {
        lemma_intern_distinct(pool, a, b);
    }
}

} // verus!
