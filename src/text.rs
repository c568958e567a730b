//! Byte-level string facts: infix search, prefixes and lexicographic order.
use vstd::prelude::*;

verus! {

/// `k` occurs in `s` as a contiguous run of bytes.
pub open spec fn has_infix(s: Seq<u8>, k: Seq<u8>) -> bool {
    exists|i: int| 0 <= i && i + k.len() <= s.len() && #[trigger] s.subrange(i, i + k.len()) == k
}

/// Whether `k` occurs in `s`.
pub fn contains_bytes(s: &[u8], k: &[u8]) -> (r: bool)
    ensures
        r == has_infix(s@, k@),
{
    if k.len() > s.len() {
        return false;
    }
    let last: usize = s.len() - k.len();
    let mut i: usize = 0;
    loop
        invariant
            last == s@.len() - k@.len(),
            i <= last,
            forall|j: int| 0 <= j < i ==> #[trigger] s@.subrange(j, j + k@.len()) != k@,
        decreases last - i,
    {
        if starts_at(s, k, i) {
            return true;
        }
        if i == last {
            return false;
        }
        i = i + 1;
    }
}

/// Whether `k` occurs in `s` at byte offset `at`.
fn starts_at(s: &[u8], k: &[u8], at: usize) -> (r: bool)
    requires
        at + k@.len() <= s@.len(),
    ensures
        r == (s@.subrange(at as int, at + k@.len()) == k@),
{
    let n: usize = s.len();
    let mut j: usize = 0;
    while j < k.len()
        invariant
            n == s@.len(),
            at + k@.len() <= s@.len(),
            j <= k@.len(),
            forall|m: int| 0 <= m < j ==> s@[at + m] == k@[m],
        decreases k@.len() - j,
    {
        let idx: usize = at + j;
        if s[idx] != k[j] {
            assert(s@.subrange(at as int, at + k@.len())[j as int] != k@[j as int]);
            return false;
        }
        j = j + 1;
    }
    assert(s@.subrange(at as int, at + k@.len()) =~= k@);
    true
}

/// Whether `p` is a prefix of `s`.
pub fn starts_with_bytes(s: &[u8], p: &[u8]) -> (r: bool)
    ensures
        r == (p@.len() <= s@.len() && s@.subrange(0, p@.len() as int) == p@),
{
    if p.len() > s.len() {
        return false;
    }
    starts_at(s, p, 0)
}

/// Strict lexicographic order on byte strings, as `str` orders itself.
pub open spec fn lex_lt(a: Seq<u8>, b: Seq<u8>) -> bool
    decreases a.len(),
{
    if a.len() == 0 {
        b.len() > 0
    } else if b.len() == 0 {
        false
    } else if a[0] != b[0] {
        a[0] < b[0]
    } else {
        lex_lt(a.drop_first(), b.drop_first())
    }
}

/// Non-strict lexicographic order.
pub open spec fn lex_le(a: Seq<u8>, b: Seq<u8>) -> bool {
    a == b || lex_lt(a, b)
}

proof fn lemma_lex_lt_suffix(a: Seq<u8>, b: Seq<u8>, i: int)
    requires
        0 <= i <= a.len(),
        i <= b.len(),
        a.subrange(0, i) == b.subrange(0, i),
    ensures
        lex_lt(a, b) == lex_lt(a.subrange(i, a.len() as int), b.subrange(i, b.len() as int)),
    decreases i,
{
    if i > 0 {
        assert(a[0] == a.subrange(0, i)[0]);
        assert(b[0] == b.subrange(0, i)[0]);
        assert(a.drop_first().subrange(0, i - 1) =~= b.drop_first().subrange(0, i - 1)) by {
            assert forall|m: int| 0 <= m < i - 1 implies #[trigger] a.drop_first().subrange(0, i - 1)[m]
                == b.drop_first().subrange(0, i - 1)[m] by {
                assert(a.subrange(0, i)[m + 1] == a[m + 1]);
                assert(b.subrange(0, i)[m + 1] == b[m + 1]);
            }
        }
        lemma_lex_lt_suffix(a.drop_first(), b.drop_first(), i - 1);
        assert(a.drop_first().subrange(i - 1, a.len() - 1) =~= a.subrange(i, a.len() as int));
        assert(b.drop_first().subrange(i - 1, b.len() - 1) =~= b.subrange(i, b.len() as int));
    } else {
        assert(a.subrange(0, a.len() as int) =~= a);
        assert(b.subrange(0, b.len() as int) =~= b);
    }
}

/// Whether `a` comes strictly before `b` in lexicographic byte order.
pub fn less_bytes(a: &[u8], b: &[u8]) -> (r: bool)
    ensures
        r == lex_lt(a@, b@),
{
    let mut i: usize = 0;
    while i < a.len() && i < b.len()
        invariant
            i <= a@.len(),
            i <= b@.len(),
            a@.subrange(0, i as int) == b@.subrange(0, i as int),
        decreases a@.len() - i,
    {
        if a[i] != b[i] {
            proof {
                lemma_lex_lt_suffix(a@, b@, i as int);
                let sa = a@.subrange(i as int, a@.len() as int);
                assert(sa[0] == a@[i as int]);
                assert(b@.subrange(i as int, b@.len() as int)[0] == b@[i as int]);
            }
            return a[i] < b[i];
        }
        assert(a@.subrange(0, i + 1) =~= a@.subrange(0, i as int).push(a@[i as int]));
        assert(b@.subrange(0, i + 1) =~= b@.subrange(0, i as int).push(b@[i as int]));
        i = i + 1;
    }
    proof {
        lemma_lex_lt_suffix(a@, b@, i as int);
    }
    i < b.len()
}

/// Lexicographic order is transitive.
pub proof fn lemma_lex_transitive(a: Seq<u8>, b: Seq<u8>, c: Seq<u8>)
    requires
        lex_lt(a, b),
        lex_lt(b, c),
    ensures
        lex_lt(a, c),
    decreases a.len(),
{
    if a.len() > 0 && b.len() > 0 && c.len() > 0 && a[0] == b[0] && b[0] == c[0] {
        lemma_lex_transitive(a.drop_first(), b.drop_first(), c.drop_first());
    }
}

/// Of two distinct byte strings exactly one comes first.
pub proof fn lemma_lex_total(a: Seq<u8>, b: Seq<u8>)
    ensures
        a == b || lex_lt(a, b) || lex_lt(b, a),
        !(lex_lt(a, b) && lex_lt(b, a)),
    decreases a.len(),
{
    if a.len() > 0 && b.len() > 0 {
        lemma_lex_total(a.drop_first(), b.drop_first());
        if a[0] == b[0] && a.drop_first() == b.drop_first() {
            assert(a =~= seq![a[0]] + a.drop_first());
            assert(b =~= seq![b[0]] + b.drop_first());
        }
    } else if a.len() == 0 && b.len() == 0 {
        assert(a =~= b);
    }
}

} // verus!
