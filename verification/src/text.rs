use vstd::prelude::*;

verus! {

/// An ASCII letter, as the identifier rules of the language use it.
pub open spec fn is_ascii_alpha(c: char) -> bool {
    ('a' <= c && c <= 'z') || ('A' <= c && c <= 'Z')
}

/// An ASCII digit.
pub open spec fn is_ascii_digit(c: char) -> bool {
    '0' <= c && c <= '9'
}

pub open spec fn is_ident_tail_char(c: char) -> bool {
    is_ascii_alpha(c) || is_ascii_digit(c) || c == '_'
}

/// The identifier shape of the language: `[a-zA-Z][a-zA-Z0-9_]*`.
pub open spec fn spec_is_ident(s: Seq<char>) -> bool {
    &&& s.len() > 0
    &&& is_ascii_alpha(s[0])
    &&& forall|i: int| 1 <= i < s.len() ==> #[trigger] is_ident_tail_char(s[i])
}

/// Appends one character to a string (`String::push`).
#[verifier::external_body]
pub(crate) fn push_char(s: &mut String, c: char)
    ensures
        final(s)@ == old(s)@.push(c),
{
    s.push(c);
}

/// The characters of a string slice, in order.
pub fn chars_of(s: &str) -> (v: Vec<char>)
    ensures
        v@ == s@,
{
    let mut v: Vec<char> = Vec::new();
    for c in it: s.chars()
        invariant
            v@ == it.seq().take(it.index() as int),
    {
        v.push(c);
    }
    v
}

/// Appends a string slice to a string.
pub fn push_str(s: &mut String, t: &str)
    ensures
        final(s)@ == old(s)@ + t@,
{
    s.append(t);
}

/// Whether `name` is a syntactically valid identifier of the language.
pub fn is_valid_new_name(name: &str) -> (res: bool)
    ensures
        res == spec_is_ident(name@),
{
    let cs = chars_of(name);
    let n = cs.len();
    if n == 0 {
        return false;
    }
    let first = cs[0];
    if !(('a' <= first && first <= 'z') || ('A' <= first && first <= 'Z')) {
        return false;
    }
    let mut i: usize = 1;
    while i < n
        invariant
            1 <= i <= n,
            n == name@.len(),
            cs@ == name@,
            forall|j: int| 1 <= j < i ==> #[trigger] is_ident_tail_char(name@[j]),
        decreases n - i,
    {
        let c = cs[i];
        if !(('a' <= c && c <= 'z') || ('A' <= c && c <= 'Z') || ('0' <= c && c <= '9') || c == '_') {
            assert(!is_ident_tail_char(name@[i as int]));
            return false;
        }
        i = i + 1;
    }
    true
}

} // verus!

verus! {

/// `s` split at every occurrence of `sep`, as `str::split` does: always at
/// least one (possibly empty) piece.
pub open spec fn split_on(s: Seq<char>, sep: char) -> Seq<Seq<char>>
    decreases s.len(),
{
    if s.len() == 0 {
        seq![Seq::<char>::empty()]
    } else {
        let rest = split_on(s.drop_last(), sep);
        if s.last() == sep {
            rest.push(Seq::<char>::empty())
        } else {
            rest.update(rest.len() - 1, rest.last().push(s.last()))
        }
    }
}

pub proof fn lemma_split_on_nonempty(s: Seq<char>, sep: char)
    ensures
        split_on(s, sep).len() >= 1,
    decreases s.len(),
{
    if s.len() > 0 {
        lemma_split_on_nonempty(s.drop_last(), sep);
    }
}

/// Whether `s` ends with `suffix`.
pub open spec fn ends_with(s: Seq<char>, suffix: Seq<char>) -> bool {
    suffix.len() <= s.len() && s.subrange(s.len() - suffix.len(), s.len() as int) == suffix
}

/// Whether `s` starts with `prefix`.
pub open spec fn starts_with(s: Seq<char>, prefix: Seq<char>) -> bool {
    prefix.len() <= s.len() && s.subrange(0, prefix.len() as int) == prefix
}

/// A string holding exactly the characters `v[from..to]`.
pub fn string_from_chars(v: &Vec<char>, from: usize, to: usize) -> (s: String)
    requires
        from <= to <= v@.len(),
    ensures
        s@ == v@.subrange(from as int, to as int),
{
    let mut s = String::new();
    let mut i = from;
    while i < to
        invariant
            from <= i <= to <= v@.len(),
            s@ == v@.subrange(from as int, i as int),
        decreases to - i,
    {
        push_char(&mut s, v[i]);
        assert(v@.subrange(from as int, i + 1) == v@.subrange(from as int, i as int).push(v@[i as int]));
        i = i + 1;
    }
    s
}

/// A string holding the characters of `s`.
pub fn copy_str(s: &str) -> (r: String)
    ensures
        r@ == s@,
{
    let mut r = String::new();
    push_str(&mut r, s);
    r
}

/// The pieces of `s` between occurrences of `sep`.
pub fn split_chars(s: &str, sep: char) -> (r: Vec<String>)
    ensures
        r.deep_view() == split_on(s@, sep),
{
    let cs = chars_of(s);
    let n = cs.len();
    let mut out: Vec<String> = Vec::new();
    let mut cur = String::new();
    let mut i: usize = 0;
    assert(cs@.take(0) =~= Seq::<char>::empty());
    while i < n
        invariant
            i <= n == cs@.len(),
            cs@ == s@,
            out.deep_view().push(cur@) == split_on(cs@.take(i as int), sep),
        decreases n - i,
    {
        let c = cs[i];
        let ghost prev = cs@.take(i as int);
        assert(cs@.take(i + 1).drop_last() =~= prev);
        assert(cs@.take(i + 1).last() == c);
        if c == sep {
            let done = cur;
            out.push(done);
            cur = String::new();
            assert(out.deep_view() =~= split_on(prev, sep));
        } else {
            let ghost before = out.deep_view().push(cur@);
            push_char(&mut cur, c);
            assert(out.deep_view().push(cur@) =~= before.update(before.len() - 1, before.last().push(c)));
        }
        i = i + 1;
    }
    out.push(cur);
    assert(cs@.take(n as int) =~= cs@);
    out
}

/// Whether `s` ends with `suffix`.
pub fn str_ends_with(s: &Vec<char>, suffix: &Vec<char>) -> (r: bool)
    ensures
        r == ends_with(s@, suffix@),
{
    if suffix.len() > s.len() {
        return false;
    }
    let off = s.len() - suffix.len();
    let mut i: usize = 0;
    while i < suffix.len()
        invariant
            i <= suffix@.len(),
            off + suffix@.len() == s@.len(),
            off == s@.len() - suffix@.len(),
            s@.len() == s.len(),
            forall|j: int| 0 <= j < i ==> s@[off + j] == suffix@[j],
        decreases suffix.len() - i,
    {
        if s[off + i] != suffix[i] {
            assert(s@.subrange(off as int, s@.len() as int)[i as int] != suffix@[i as int]);
            return false;
        }
        i = i + 1;
    }
    assert(s@.subrange(off as int, s@.len() as int) =~= suffix@);
    true
}

/// Whether two character sequences are equal.
pub fn chars_eq(a: &Vec<char>, b: &Vec<char>) -> (r: bool)
    ensures
        r == (a@ == b@),
{
    if a.len() != b.len() {
        return false;
    }
    let mut i: usize = 0;
    while i < a.len()
        invariant
            i <= a@.len() == b@.len(),
            forall|j: int| 0 <= j < i ==> a@[j] == b@[j],
        decreases a.len() - i,
    {
        if a[i] != b[i] {
            return false;
        }
        i = i + 1;
    }
    assert(a@ =~= b@);
    true
}

/// Whether two strings are equal.
pub fn str_eq(a: &str, b: &str) -> (r: bool)
    ensures
        r == (a@ == b@),
{
    let ca = chars_of(a);
    let cb = chars_of(b);
    chars_eq(&ca, &cb)
}


/// Whether two lists of strings are equal.
pub fn strings_eq(a: &Vec<String>, b: &Vec<String>) -> (r: bool)
    ensures
        r == (a.deep_view() == b.deep_view()),
{
    if a.len() != b.len() {
        assert(a.deep_view().len() != b.deep_view().len());
        return false;
    }
    let mut i: usize = 0;
    while i < a.len()
        invariant
            i <= a@.len() == b@.len(),
            forall|j: int| 0 <= j < i ==> a.deep_view()[j] == b.deep_view()[j],
        decreases a.len() - i,
    {
        if !str_eq(a[i].as_str(), b[i].as_str()) {
            assert(a.deep_view()[i as int] != b.deep_view()[i as int]);
            return false;
        }
        i = i + 1;
    }
    assert(a.deep_view() =~= b.deep_view());
    true
}

/// Strict lexicographic order on character sequences (which is the order
/// `str`'s `Ord` gives, since UTF-8 preserves code point order).
pub open spec fn seq_lt(a: Seq<char>, b: Seq<char>) -> bool
    decreases a.len(),
{
    if a.len() == 0 {
        b.len() > 0
    } else if b.len() == 0 {
        false
    } else if a[0] != b[0] {
        a[0] < b[0]
    } else {
        seq_lt(a.drop_first(), b.drop_first())
    }
}

/// Whether `a` sorts strictly before `b`.
pub fn str_lt(a: &str, b: &str) -> (r: bool)
    ensures
        r == seq_lt(a@, b@),
{
    let ca = chars_of(a);
    let cb = chars_of(b);
    let mut i: usize = 0;
    assert(a@.skip(0) =~= a@);
    assert(b@.skip(0) =~= b@);
    while i < ca.len() && i < cb.len()
        invariant
            i <= ca@.len(),
            i <= cb@.len(),
            ca@ == a@,
            cb@ == b@,
            forall|j: int| 0 <= j < i ==> ca@[j] == cb@[j],
            seq_lt(a@, b@) == seq_lt(a@.skip(i as int), b@.skip(i as int)),
        decreases ca.len() - i,
    {
        if ca[i] != cb[i] {
            assert(a@.skip(i as int)[0] == ca@[i as int]);
            assert(b@.skip(i as int)[0] == cb@[i as int]);
            return ca[i] < cb[i];
        }
        assert(a@.skip(i as int).drop_first() =~= a@.skip(i + 1));
        assert(b@.skip(i as int).drop_first() =~= b@.skip(i + 1));
        i = i + 1;
    }
    i < cb.len()
}


/// The digit character for `d < 10`.
pub open spec fn digit_char(d: nat) -> char {
    if d == 0 { '0' } else if d == 1 { '1' } else if d == 2 { '2' } else if d == 3 { '3' }
    else if d == 4 { '4' } else if d == 5 { '5' } else if d == 6 { '6' } else if d == 7 { '7' }
    else if d == 8 { '8' } else { '9' }
}

/// The decimal digits of `n`, most significant first, without leading
/// zeros (`0` is `"0"`).
pub open spec fn decimal(n: nat) -> Seq<char>
    decreases n,
{
    if n < 10 {
        seq![digit_char(n)]
    } else {
        decimal(n / 10).push(digit_char(n % 10))
    }
}

fn digit(d: usize) -> (c: char)
    requires
        d < 10,
    ensures
        c == digit_char(d as nat),
{
    if d == 0 { '0' } else if d == 1 { '1' } else if d == 2 { '2' } else if d == 3 { '3' }
    else if d == 4 { '4' } else if d == 5 { '5' } else if d == 6 { '6' } else if d == 7 { '7' }
    else if d == 8 { '8' } else { '9' }
}

/// Appends the decimal form of `n`.
pub fn push_decimal(out: &mut String, n: u128)
    ensures
        final(out)@ == old(out)@ + decimal(n as nat),
    decreases n,
{
    if n < 10 {
        push_char(out, digit(n as usize));
    } else {
        push_decimal(out, n / 10);
        push_char(out, digit((n % 10) as usize));
    }
}

/// The decimal form of a signed integer: a `-` before the digits of its
/// magnitude when it is negative.
pub open spec fn int_text(n: int) -> Seq<char> {
    if n < 0 {
        seq!['-'] + decimal((-n) as nat)
    } else {
        decimal(n as nat)
    }
}

/// Appends the decimal form of `n`.
pub fn push_int(out: &mut String, n: i64)
    ensures
        final(out)@ == old(out)@ + int_text(n as int),
{
    if n < 0 {
        push_char(out, '-');
        let mag: u64 = if n == i64::MIN { 9223372036854775808u64 } else { (-n) as u64 };
        push_decimal(out, mag as u128);
    } else {
        push_decimal(out, n as u128);
    }
}


/// `a` sorts before `b`, or they are equal.
pub open spec fn seq_le(a: Seq<char>, b: Seq<char>) -> bool {
    a == b || seq_lt(a, b)
}

pub proof fn lemma_seq_lt_irrefl(a: Seq<char>)
    ensures
        !seq_lt(a, a),
    decreases a.len(),
{
    if a.len() > 0 {
        lemma_seq_lt_irrefl(a.drop_first());
    }
}

pub proof fn lemma_seq_lt_trans(a: Seq<char>, b: Seq<char>, c: Seq<char>)
    requires
        seq_lt(a, b),
        seq_lt(b, c),
    ensures
        seq_lt(a, c),
    decreases a.len(),
{
    if a.len() > 0 && b.len() > 0 && c.len() > 0 && a[0] == b[0] && b[0] == c[0] {
        lemma_seq_lt_trans(a.drop_first(), b.drop_first(), c.drop_first());
    }
}

pub proof fn lemma_seq_lt_total(a: Seq<char>, b: Seq<char>)
    ensures
        a == b || seq_lt(a, b) || seq_lt(b, a),
    decreases a.len(),
{
    if a.len() == 0 {
        if b.len() == 0 {
            assert(a =~= b);
        }
    } else if b.len() > 0 {
        if a[0] == b[0] {
            lemma_seq_lt_total(a.drop_first(), b.drop_first());
            if a.drop_first() == b.drop_first() {
                assert(a =~= seq![a[0]] + a.drop_first());
                assert(b =~= seq![b[0]] + b.drop_first());
            }
        }
    }
}

pub proof fn lemma_seq_lt_asym(a: Seq<char>, b: Seq<char>)
    requires
        seq_lt(a, b),
    ensures
        !seq_lt(b, a),
{
    if seq_lt(b, a) {
        lemma_seq_lt_trans(a, b, a);
        lemma_seq_lt_irrefl(a);
    }
}

pub proof fn lemma_seq_le_trans(a: Seq<char>, b: Seq<char>, c: Seq<char>)
    requires
        seq_le(a, b),
        seq_le(b, c),
    ensures
        seq_le(a, c),
{
    if seq_lt(a, b) && seq_lt(b, c) {
        lemma_seq_lt_trans(a, b, c);
    }
}


pub proof fn lemma_decimal_len(n: nat)
    ensures
        decimal(n).len() >= 1,
        decimal(n).len() == 1 <==> n < 10,
    decreases n,
{
    if n >= 10 {
        lemma_decimal_len(n / 10);
    }
}

pub proof fn lemma_digit_char_injective(a: nat, b: nat)
    requires
        a < 10,
        b < 10,
        digit_char(a) == digit_char(b),
    ensures
        a == b,
{
}

/// Different numbers have different decimal forms.
pub proof fn lemma_decimal_injective(a: nat, b: nat)
    requires
        decimal(a) == decimal(b),
    ensures
        a == b,
    decreases a,
{
    lemma_decimal_len(a);
    lemma_decimal_len(b);
    if a < 10 && b < 10 {
        assert(decimal(a)[0] == digit_char(a));
        assert(decimal(b)[0] == digit_char(b));
        lemma_digit_char_injective(a, b);
    } else if a >= 10 && b >= 10 {
        let da = decimal(a);
        let db = decimal(b);
        assert(da.last() == digit_char(a % 10));
        assert(db.last() == digit_char(b % 10));
        lemma_digit_char_injective(a % 10, b % 10);
        assert(da.drop_last() =~= decimal(a / 10));
        assert(db.drop_last() =~= decimal(b / 10));
        lemma_decimal_injective(a / 10, b / 10);
    }
}

/// The sequence of sequences `strs` joined with `sep` between neighbours.
pub open spec fn join_with(strs: Seq<Seq<char>>, sep: Seq<char>) -> Seq<char>
    decreases strs.len(),
{
    if strs.len() == 0 {
        Seq::<char>::empty()
    } else if strs.len() == 1 {
        strs[0]
    } else {
        join_with(strs.drop_last(), sep) + sep + strs.last()
    }
}

/// The number of leading `keys` that sort strictly before `x`: where `x`
/// goes in the sorted sequence `keys`.
pub open spec fn sorted_pos(keys: Seq<Seq<char>>, x: Seq<char>) -> int
    decreases keys.len(),
{
    if keys.len() == 0 || !seq_lt(keys[0], x) {
        0
    } else {
        1 + sorted_pos(keys.drop_first(), x)
    }
}

pub open spec fn sorted_strict(keys: Seq<Seq<char>>) -> bool {
    forall|i: int, j: int| 0 <= i < j < keys.len() ==> seq_lt(keys[i], keys[j])
}

pub open spec fn sorted_le(keys: Seq<Seq<char>>) -> bool {
    forall|i: int, j: int| 0 <= i < j < keys.len() ==> seq_le(keys[i], keys[j])
}

pub proof fn lemma_sorted_pos(keys: Seq<Seq<char>>, x: Seq<char>)
    requires
        sorted_le(keys),
    ensures
        0 <= sorted_pos(keys, x) <= keys.len(),
        forall|j: int| 0 <= j < sorted_pos(keys, x) ==> seq_lt(#[trigger] keys[j], x),
        forall|j: int| sorted_pos(keys, x) <= j < keys.len() ==> !seq_lt(#[trigger] keys[j], x),
    decreases keys.len(),
{
    if keys.len() == 0 {
    } else if !seq_lt(keys[0], x) {
        assert forall|j: int| 0 <= j < keys.len() implies !seq_lt(#[trigger] keys[j], x) by {
            if j > 0 && seq_lt(keys[j], x) {
                assert(seq_le(keys[0], keys[j]));
                if keys[0] != keys[j] {
                    lemma_seq_lt_trans(keys[0], keys[j], x);
                }
            }
        }
    } else {
        let rest = keys.drop_first();
        assert(sorted_le(rest)) by {
            assert forall|i: int, j: int| 0 <= i < j < rest.len() implies seq_le(rest[i], rest[j]) by {
                assert(rest[i] == keys[i + 1] && rest[j] == keys[j + 1]);
            }
        }
        lemma_sorted_pos(rest, x);
        assert forall|j: int| 0 <= j < sorted_pos(keys, x) implies seq_lt(#[trigger] keys[j], x) by {
            if j > 0 {
                assert(keys[j] == rest[j - 1]);
            }
        }
        assert forall|j: int| sorted_pos(keys, x) <= j < keys.len() implies !seq_lt(#[trigger] keys[j], x) by {
            assert(keys[j] == rest[j - 1]);
        }
    }
}

/// Inserting `x` at its sorted position keeps a sequence sorted.
pub proof fn lemma_insert_sorted_le(keys: Seq<Seq<char>>, x: Seq<char>)
    requires
        sorted_le(keys),
    ensures
        sorted_le(keys.insert(sorted_pos(keys, x), x)),
{
    lemma_sorted_pos(keys, x);
    let p = sorted_pos(keys, x);
    let k2 = keys.insert(p, x);
    assert forall|i: int, j: int| 0 <= i < j < k2.len() implies seq_le(k2[i], k2[j]) by {
        if j < p {
            assert(k2[i] == keys[i] && k2[j] == keys[j]);
        } else if j == p {
            assert(k2[i] == keys[i]);
        } else if i < p {
            assert(k2[i] == keys[i] && k2[j] == keys[j - 1]);
            lemma_seq_lt_total(x, keys[j - 1]);
            assert(seq_lt(keys[i], x));
            assert(seq_le(x, keys[j - 1]));
            lemma_seq_le_trans(keys[i], x, keys[j - 1]);
        } else if i == p {
            assert(k2[j] == keys[j - 1]);
            lemma_seq_lt_total(x, keys[j - 1]);
        } else {
            assert(k2[i] == keys[i - 1] && k2[j] == keys[j - 1]);
        }
    }
}

/// Inserting a new `x` at its sorted position keeps a sequence strictly
/// sorted.
pub proof fn lemma_insert_sorted_strict(keys: Seq<Seq<char>>, x: Seq<char>)
    requires
        sorted_strict(keys),
        !keys.contains(x),
    ensures
        sorted_strict(keys.insert(sorted_pos(keys, x), x)),
{
    assert(sorted_le(keys));
    lemma_sorted_pos(keys, x);
    let p = sorted_pos(keys, x);
    let k2 = keys.insert(p, x);
    assert forall|i: int, j: int| 0 <= i < j < k2.len() implies seq_lt(k2[i], k2[j]) by {
        if j < p {
            assert(k2[i] == keys[i] && k2[j] == keys[j]);
        } else if j == p {
            assert(k2[i] == keys[i]);
        } else if i < p {
            assert(k2[i] == keys[i] && k2[j] == keys[j - 1]);
            lemma_seq_lt_total(x, keys[j - 1]);
            assert(x != keys[j - 1]);
            lemma_seq_lt_trans(keys[i], x, keys[j - 1]);
        } else if i == p {
            assert(k2[j] == keys[j - 1]);
            lemma_seq_lt_total(x, keys[j - 1]);
            assert(x != keys[j - 1]);
        } else {
            assert(k2[i] == keys[i - 1] && k2[j] == keys[j - 1]);
        }
    }
}


pub open spec fn all_distinct_seq(strs: Seq<Seq<char>>) -> bool {
    forall|i: int, j: int| 0 <= i < strs.len() && 0 <= j < strs.len() && i != j ==> strs[i] != strs[j]
}


/// Whether `s` is one of `strs`.
pub fn contains_str(strs: &Vec<String>, s: &str) -> (r: bool)
    ensures
        r == strs.deep_view().contains(s@),
{
    let mut i: usize = 0;
    while i < strs.len()
        invariant
            i <= strs@.len(),
            forall|j: int| 0 <= j < i ==> strs.deep_view()[j] != s@,
        decreases strs.len() - i,
    {
        if str_eq(strs[i].as_str(), s) {
            assert(strs.deep_view()[i as int] == s@);
            return true;
        }
        i = i + 1;
    }
    false
}


/// A scan that stops at the first key not sorting before `x` finds
/// `sorted_pos`.
pub proof fn lemma_scan_pos(keys: Seq<Seq<char>>, x: Seq<char>, i: int)
    requires
        sorted_le(keys),
        0 <= i <= keys.len(),
        forall|j: int| 0 <= j < i ==> seq_lt(#[trigger] keys[j], x),
        i == keys.len() || !seq_lt(keys[i], x),
    ensures
        i == sorted_pos(keys, x),
{
    lemma_sorted_pos(keys, x);
    let p = sorted_pos(keys, x);
    if i < p {
        assert(seq_lt(keys[i], x));
    } else if i > p {
        assert(seq_lt(keys[p], x));
    }
}

} // verus!
