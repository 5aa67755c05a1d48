//! Lexicographic order on character sequences and sorting of names.
//!
//! `String`'s `Ord` compares UTF-8 bytes lexicographically; UTF-8
//! preserves code-point order, so comparing characters by code point
//! gives the same order.
use vstd::prelude::*;

verus! {

/// `a < b` in lexicographic code-point order.
pub open spec fn str_lt(a: Seq<char>, b: Seq<char>) -> bool
    decreases a.len(),
{
    if a.len() == 0 {
        b.len() > 0
    } else if b.len() == 0 {
        false
    } else if a[0] != b[0] {
        (a[0] as u32) < (b[0] as u32)
    } else {
        str_lt(a.drop_first(), b.drop_first())
    }
}

pub proof fn lemma_str_lt_irrefl(a: Seq<char>)
    ensures
        !str_lt(a, a),
    decreases a.len(),
{
    if a.len() > 0 {
        lemma_str_lt_irrefl(a.drop_first());
    }
}

pub proof fn lemma_str_lt_asym(a: Seq<char>, b: Seq<char>)
    ensures
        !(str_lt(a, b) && str_lt(b, a)),
    decreases a.len(),
{
    if a.len() > 0 && b.len() > 0 && a[0] == b[0] {
        lemma_str_lt_asym(a.drop_first(), b.drop_first());
    }
}

pub proof fn lemma_str_lt_trans(a: Seq<char>, b: Seq<char>, c: Seq<char>)
    requires
        str_lt(a, b),
        str_lt(b, c),
    ensures
        str_lt(a, c),
    decreases a.len(),
{
    if a.len() > 0 && b.len() > 0 && c.len() > 0 && a[0] == b[0] && b[0] == c[0] {
        lemma_str_lt_trans(a.drop_first(), b.drop_first(), c.drop_first());
    }
}

proof fn lemma_char_u32_injective(c: char, d: char)
    requires
        c != d,
    ensures
        (c as u32) != (d as u32),
{
    assert((c as u32) as char == c);
}

pub proof fn lemma_str_lt_total(a: Seq<char>, b: Seq<char>)
    ensures
        a == b || str_lt(a, b) || str_lt(b, a),
    decreases a.len(),
{
    if a.len() > 0 && b.len() > 0 && a[0] == b[0] {
        lemma_str_lt_total(a.drop_first(), b.drop_first());
        if a.drop_first() == b.drop_first() {
            assert(a =~= seq![a[0]] + a.drop_first());
            assert(b =~= seq![b[0]] + b.drop_first());
        }
    } else if a.len() == 0 && b.len() == 0 {
        assert(a =~= b);
    } else if a.len() > 0 && b.len() > 0 {
        lemma_char_u32_injective(a[0], b[0]);
    }
}

pub fn str_less(a: &[char], b: &[char]) -> (r: bool)
    ensures
        r == str_lt(a@, b@),
{
    let mut i: usize = 0;
    assert(a@.subrange(0, a.len() as int) =~= a@);
    assert(b@.subrange(0, b.len() as int) =~= b@);
    while i < a.len() && i < b.len()
        invariant
            i <= a.len(),
            i <= b.len(),
            a@.subrange(0, i as int) == b@.subrange(0, i as int),
            str_lt(a@, b@) == str_lt(a@.subrange(i as int, a.len() as int), b@.subrange(i as int, b.len() as int)),
        decreases a.len() - i,
    {
        let ghost sa = a@.subrange(i as int, a.len() as int);
        let ghost sb = b@.subrange(i as int, b.len() as int);
        if a[i] != b[i] {
            assert(sa[0] == a@[i as int] && sb[0] == b@[i as int]);
            return (a[i] as u32) < (b[i] as u32);
        }
        assert(sa.drop_first() =~= a@.subrange(i + 1, a.len() as int));
        assert(sb.drop_first() =~= b@.subrange(i + 1, b.len() as int));
        assert(a@.subrange(0, i + 1) =~= a@.subrange(0, i as int).push(a@[i as int]));
        assert(b@.subrange(0, i + 1) =~= b@.subrange(0, i as int).push(b@[i as int]));
        i += 1;
    }
    i < b.len()
}

/// `s` is strictly increasing.
pub open spec fn strictly_sorted(s: Seq<Seq<char>>) -> bool {
    forall|i: int, j: int| 0 <= i < j < s.len() ==> str_lt(#[trigger] s[i], #[trigger] s[j])
}

/// The elements of the finite set `m` in increasing order.
pub open spec fn sorted_set(m: Set<Seq<char>>) -> Seq<Seq<char>> {
    choose|s: Seq<Seq<char>>| strictly_sorted(s) && s.to_set() == m
}

proof fn lemma_sorted_no_dup(s: Seq<Seq<char>>)
    requires
        strictly_sorted(s),
    ensures
        s.no_duplicates(),
{
    assert forall|i: int, j: int| 0 <= i < s.len() && 0 <= j < s.len() && i != j implies s[i] != s[j] by {
        if i < j {
            lemma_str_lt_irrefl(s[i]);
        } else {
            lemma_str_lt_irrefl(s[j]);
        }
    }
}

/// Two increasing sequences with the same elements are equal.
pub proof fn lemma_sorted_unique(a: Seq<Seq<char>>, b: Seq<Seq<char>>)
    requires
        strictly_sorted(a),
        strictly_sorted(b),
        a.to_set() == b.to_set(),
    ensures
        a == b,
    decreases a.len(),
{
    if a.len() == 0 {
        if b.len() > 0 {
            assert(b.to_set().contains(b[0]));
        }
        assert(a =~= b);
    } else if b.len() == 0 {
        assert(a.to_set().contains(a[0]));
    } else {
        // the first elements are the minimum of the common set
        assert(b.to_set().contains(a[0]));
        assert(a.to_set().contains(b[0]));
        let i = choose|i: int| 0 <= i < b.len() && b[i] == a[0];
        let j = choose|j: int| 0 <= j < a.len() && a[j] == b[0];
        if i > 0 {
            if j > 0 {
                lemma_str_lt_asym(a[0], a[j]);
            } else {
                lemma_str_lt_irrefl(b[0]);
            }
        }
        assert(a[0] == b[0]);
        let a1 = a.drop_first();
        let b1 = b.drop_first();
        lemma_sorted_no_dup(a);
        lemma_sorted_no_dup(b);
        assert forall|x: Seq<char>| a1.to_set().contains(x) implies b1.to_set().contains(x) by {
            let k = choose|k: int| 0 <= k < a1.len() && a1[k] == x;
            assert(a.to_set().contains(x));
            let m = choose|m: int| 0 <= m < b.len() && b[m] == x;
            assert(a[k + 1] == x);
            if m == 0 {
                lemma_str_lt_irrefl(a[0]);
            }
            assert(b1[m - 1] == x);
        }
        assert forall|x: Seq<char>| b1.to_set().contains(x) implies a1.to_set().contains(x) by {
            let k = choose|k: int| 0 <= k < b1.len() && b1[k] == x;
            assert(b.to_set().contains(x));
            let m = choose|m: int| 0 <= m < a.len() && a[m] == x;
            assert(b[k + 1] == x);
            if m == 0 {
                lemma_str_lt_irrefl(b[0]);
            }
            assert(a1[m - 1] == x);
        }
        assert(a1.to_set() =~= b1.to_set());
        lemma_sorted_unique(a1, b1);
        assert(a =~= seq![a[0]] + a1);
        assert(b =~= seq![b[0]] + b1);
    }
}

/// A strictly increasing sequence is the `sorted_set` of its elements.
pub proof fn lemma_is_sorted_set(s: Seq<Seq<char>>)
    requires
        strictly_sorted(s),
    ensures
        sorted_set(s.to_set()) == s,
{
    let t = sorted_set(s.to_set());
    assert(strictly_sorted(s) && s.to_set() == s.to_set());
    lemma_sorted_unique(t, s);
}

/// Every finite set given by a sequence has a sorted enumeration, so
/// `sorted_set` of it is one.
pub proof fn lemma_sorted_exists(s: Seq<Seq<char>>)
    ensures
        strictly_sorted(sorted_set(s.to_set())),
        sorted_set(s.to_set()).to_set() == s.to_set(),
    decreases s.len(),
{
    if s.len() == 0 {
        let e = Seq::<Seq<char>>::empty();
        assert(e.to_set() =~= s.to_set());
        assert(strictly_sorted(e) && e.to_set() == s.to_set());
    } else {
        let t = s.drop_last();
        let x = s.last();
        lemma_sorted_exists(t);
        let st = sorted_set(t.to_set());
        assert forall|y: Seq<char>| s.to_set().contains(y) <==> t.to_set().insert(x).contains(y) by {
            if s.to_set().contains(y) {
                let k = choose|k: int| 0 <= k < s.len() && s[k] == y;
                if k < t.len() {
                    assert(t[k] == y);
                }
            }
            if t.to_set().contains(y) {
                let k = choose|k: int| 0 <= k < t.len() && t[k] == y;
                assert(s[k] == y);
            }
            if y == x {
                assert(s[s.len() - 1] == y);
            }
        }
        assert(s.to_set() =~= t.to_set().insert(x));
        if t.to_set().contains(x) {
            assert(st.to_set() =~= s.to_set());
            assert(strictly_sorted(st) && st.to_set() == s.to_set());
        } else {
            // insert x at its place
            assert(!st.contains(x)) by {
                if st.contains(x) {
                    let k = choose|k: int| 0 <= k < st.len() && st[k] == x;
                    assert(st.to_set().contains(x));
                }
            }
            lemma_insertion_point(st, x);
            let p = choose|p: int| #[trigger] insertion_point(st, x, p);
            let u = st.insert(p, x);
            assert forall|i: int, j: int| 0 <= i < j < u.len() implies str_lt(#[trigger] u[i], #[trigger] u[j]) by {
                if j < p {
                } else if j == p {
                } else if i < p {
                    lemma_str_lt_trans(st[i], x, st[j - 1]);
                } else if i == p {
                } else {
                }
            }
            assert forall|y: Seq<char>| u.to_set().contains(y) <==> s.to_set().contains(y) by {
                if u.to_set().contains(y) {
                    let k = choose|k: int| 0 <= k < u.len() && u[k] == y;
                    if k < p {
                        assert(st.to_set().contains(st[k]));
                    } else if k > p {
                        assert(st.to_set().contains(st[k - 1]));
                    }
                }
                if s.to_set().contains(y) {
                    if y == x {
                        assert(u[p] == y);
                    } else {
                        assert(st.to_set().contains(y));
                        let k = choose|k: int| 0 <= k < st.len() && st[k] == y;
                        if k < p {
                            assert(u[k] == y);
                        } else {
                            assert(u[k + 1] == y);
                        }
                    }
                }
            }
            assert(u.to_set() =~= s.to_set());
            assert(strictly_sorted(u) && u.to_set() == s.to_set());
        }
    }
}

pub open spec fn insertion_point(st: Seq<Seq<char>>, x: Seq<char>, p: int) -> bool {
    0 <= p <= st.len() && (forall|i: int| 0 <= i < p ==> str_lt(st[i], x)) && (forall|i: int|
        p <= i < st.len() ==> str_lt(x, st[i]))
}

proof fn lemma_insertion_point(st: Seq<Seq<char>>, x: Seq<char>)
    requires
        strictly_sorted(st),
        !st.contains(x),
    ensures
        exists|p: int| #[trigger] insertion_point(st, x, p),
    decreases st.len(),
{
    if st.len() == 0 {
        assert(insertion_point(st, x, 0));
    } else {
        let t = st.drop_last();
        assert(strictly_sorted(t)) by {
            assert forall|i: int, j: int| 0 <= i < j < t.len() implies str_lt(#[trigger] t[i], #[trigger] t[j]) by {
                assert(t[i] == st[i] && t[j] == st[j]);
            }
        }
        assert(!t.contains(x)) by {
            if t.contains(x) {
                let k = choose|k: int| 0 <= k < t.len() && t[k] == x;
                assert(st[k] == x);
            }
        }
        lemma_insertion_point(t, x);
        let q = choose|p: int| #[trigger] insertion_point(t, x, p);
        lemma_str_lt_total(st.last(), x);
        assert(st.last() != x) by {
            assert(st[st.len() - 1] == st.last());
        }
        if str_lt(st.last(), x) {
            if q < t.len() {
                // then x < t[q] < last, contradicting last < x
                lemma_str_lt_trans(x, t[q], st.last());
                lemma_str_lt_asym(x, st.last());
            }
            let p = st.len() as int;
            assert(forall|i: int| 0 <= i < p ==> str_lt(st[i], x)) by {
                assert forall|i: int| 0 <= i < p implies str_lt(st[i], x) by {
                    if i < t.len() {
                        assert(st[i] == t[i]);
                    }
                }
            }
            assert(insertion_point(st, x, p));
        } else {
            let p = q;
            assert(forall|i: int| 0 <= i < p ==> str_lt(st[i], x)) by {
                assert forall|i: int| 0 <= i < p implies str_lt(st[i], x) by {
                    assert(st[i] == t[i]);
                }
            }
            assert(forall|i: int| p <= i < st.len() ==> str_lt(x, st[i])) by {
                assert forall|i: int| p <= i < st.len() implies str_lt(x, st[i]) by {
                    if i < t.len() {
                        assert(st[i] == t[i]);
                    } else {
                        assert(str_lt(x, st.last()));
                    }
                }
            }
            assert(insertion_point(st, x, p));
        }
    }
}

/// Sorts distinct strings into increasing order (insertion sort).
pub fn sort_distinct(v: Vec<Vec<char>>) -> (r: Vec<Vec<char>>)
    requires
        forall|i: int, j: int| 0 <= i < j < v@.len() ==> v@[i]@ != v@[j]@,
    ensures
        r@.len() == v@.len(),
        strictly_sorted(Seq::new(r@.len(), |i: int| r@[i]@)),
        Seq::new(r@.len(), |i: int| r@[i]@).to_set() == Seq::new(v@.len(), |i: int| v@[i]@).to_set(),
{
    let ghost vs = Seq::new(v@.len(), |i: int| v@[i]@);
    let mut out: Vec<Vec<char>> = Vec::new();
    let mut rest = v;
    let ghost orig = rest@;
    // consume from the back so that `pop` can be used
    while rest.len() > 0
        invariant
            rest@ == orig.subrange(0, rest@.len() as int),
            rest@.len() + out@.len() == orig.len(),
            vs == Seq::new(orig.len(), |i: int| orig[i]@),
            forall|i: int, j: int| 0 <= i < j < orig.len() ==> orig[i]@ != orig[j]@,
            strictly_sorted(Seq::new(out@.len(), |i: int| out@[i]@)),
            Seq::new(out@.len(), |i: int| out@[i]@).to_set() == vs.subrange(rest@.len() as int, orig.len() as int).to_set(),
        decreases rest.len(),
    {
        let x = rest.pop().unwrap();
        let ghost m = rest@.len() as int;
        assert(x == orig[m]);
        // find insertion point
        let mut p: usize = 0;
        while p < out.len() && str_less(out[p].as_slice(), x.as_slice())
            invariant
                p <= out@.len(),
                forall|i: int| 0 <= i < p ==> str_lt(out@[i]@, x@),
            decreases out.len() - p,
        {
            p += 1;
        }
        let ghost before = Seq::new(out@.len(), |i: int| out@[i]@);
        proof {
            // x differs from every element already placed
            assert forall|i: int| 0 <= i < before.len() implies before[i] != x@ by {
                assert(before.to_set().contains(before[i]));
                let j = choose|j: int| m < j < orig.len() && vs[j] == before[i]
                    && vs.subrange(m + 1, orig.len() as int)[j - m - 1] == before[i];
                assert(orig[j]@ != orig[m]@);
            }
            if p < out@.len() {
                lemma_str_lt_total(out@[p as int]@, x@);
                assert(str_lt(x@, before[p as int]));
            }
            assert forall|q: int| p <= q < before.len() implies str_lt(x@, #[trigger] before[q]) by {
                if q > p {
                    lemma_str_lt_trans(x@, before[p as int], before[q]);
                }
            }
        }
        out.insert(p, x);
        proof {
            let after = Seq::new(out@.len(), |i: int| out@[i]@);
            assert(after =~= before.insert(p as int, x@));
            assert forall|i: int, j: int| 0 <= i < j < after.len() implies str_lt(#[trigger] after[i], #[trigger] after[j]) by {
                if j < p {
                } else if j == p {
                } else if i < p {
                    lemma_str_lt_trans(before[i], x@, before[j - 1]);
                } else if i == p {
                } else {
                }
            }
            let big = vs.subrange(m, orig.len() as int);
            let small = vs.subrange(m + 1, orig.len() as int);
            assert(big[0] == x@);
            assert forall|y: Seq<char>| big.to_set().contains(y) implies small.to_set().insert(x@).contains(y) by {
                let k = choose|k: int| 0 <= k < big.len() && big[k] == y;
                if k > 0 {
                    assert(small[k - 1] == y);
                }
            }
            assert forall|y: Seq<char>| small.to_set().insert(x@).contains(y) implies big.to_set().contains(y) by {
                if y == x@ {
                    assert(big[0] == y);
                } else {
                    let k = choose|k: int| 0 <= k < small.len() && small[k] == y;
                    assert(big[k + 1] == y);
                }
            }
            assert(big.to_set() =~= small.to_set().insert(x@));
            assert forall|y: Seq<char>| after.to_set().contains(y) implies before.to_set().insert(x@).contains(y) by {
                let k = choose|k: int| 0 <= k < after.len() && after[k] == y;
                if k < p {
                    assert(before[k] == y);
                } else if k > p {
                    assert(before[k - 1] == y);
                }
            }
            assert forall|y: Seq<char>| before.to_set().insert(x@).contains(y) implies after.to_set().contains(y) by {
                if y == x@ {
                    assert(after[p as int] == y);
                } else {
                    let k = choose|k: int| 0 <= k < before.len() && before[k] == y;
                    if k < p {
                        assert(after[k] == y);
                    } else {
                        assert(after[k + 1] == y);
                    }
                }
            }
            assert(after.to_set() =~= before.to_set().insert(x@));
        }
    }
    assert(vs.subrange(0, orig.len() as int) =~= vs);
    out
}

/// The empty set enumerates as the empty sequence.
pub proof fn lemma_sorted_set_empty()
    ensures
        sorted_set(Set::<Seq<char>>::empty()).len() == 0,
{
    let e = Seq::<Seq<char>>::empty();
    assert(e.to_set() =~= Set::<Seq<char>>::empty());
    lemma_is_sorted_set(e);
}

} // verus!
