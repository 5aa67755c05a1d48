//! Collections of items keyed by a name: lookup and name-set helpers.
use vstd::prelude::*;
use crate::text::chars_eq;

verus! {

/// An item that carries its own name.
pub trait Named {
    spec fn name_view(&self) -> Seq<char>;

    fn name_chars(&self) -> (r: Vec<char>)
        ensures
            r@ == self.name_view(),
    ;
}

pub open spec fn names_distinct<T: Named>(v: Seq<T>) -> bool {
    forall|i: int, j: int| 0 <= i < j < v.len() ==> v[i].name_view() != v[j].name_view()
}

pub open spec fn name_set<T: Named>(v: Seq<T>) -> Set<Seq<char>> {
    Set::new(|n: Seq<char>| exists|i: int| 0 <= i < v.len() && v[i].name_view() == n)
}

/// Position of the item named `n`, if any.
pub open spec fn named_pos<T: Named>(v: Seq<T>, n: Seq<char>) -> Option<int> {
    if exists|i: int| 0 <= i < v.len() && v[i].name_view() == n {
        Some(choose|i: int| 0 <= i < v.len() && v[i].name_view() == n)
    } else {
        None
    }
}

pub fn find_named<T: Named>(v: &Vec<T>, n: &Vec<char>) -> (r: Option<usize>)
    requires
        names_distinct(v@),
    ensures
        match r {
            Some(i) => named_pos(v@, n@) == Some(i as int) && i < v@.len(),
            None => named_pos(v@, n@) is None,
        },
{
    let mut i: usize = 0;
    while i < v.len()
        invariant
            i <= v.len(),
            forall|j: int| 0 <= j < i ==> v@[j].name_view() != n@,
            names_distinct(v@),
        decreases v.len() - i,
    {
        let ni = v[i].name_chars();
        if chars_eq(ni.as_slice(), n.as_slice()) {
            proof {
                let c = choose|c: int| 0 <= c < v@.len() && v@[c].name_view() == n@;
                if c != i {
                    if c < i {
                        assert(v@[c].name_view() != v@[i as int].name_view());
                    } else {
                        assert(v@[i as int].name_view() != v@[c].name_view());
                    }
                }
            }
            return Some(i);
        }
        i += 1;
    }
    None
}

pub open spec fn names_of(v: Seq<Vec<char>>) -> Seq<Seq<char>> {
    Seq::new(v.len(), |i: int| v[i]@)
}

/// The set the names of `a` are filtered to: all of them; or, given `b`,
/// those `b` also has (`present`) or lacks (`!present`).
pub open spec fn filtered_name_set<T: Named>(a: Seq<T>, b: Option<Seq<T>>, present: bool) -> Set<Seq<char>> {
    match b {
        Some(bb) => if present {
            name_set(a).intersect(name_set(bb))
        } else {
            name_set(a).difference(name_set(bb))
        },
        None => name_set(a),
    }
}

/// The names of `a` (all, or those `b` has / lacks), in the order of `a`.
pub fn names_filtered<T: Named>(a: &Vec<T>, b: Option<&Vec<T>>, present: bool) -> (r: Vec<Vec<char>>)
    requires
        names_distinct(a@),
        b matches Some(bb) ==> names_distinct(bb@),
    ensures
        forall|i: int, j: int| 0 <= i < j < r@.len() ==> r@[i]@ != r@[j]@,
        names_of(r@).to_set() == filtered_name_set(a@, match b { Some(bb) => Some(bb@), None => None }, present),
{
    let ghost bs: Option<Seq<T>> = match b { Some(bb) => Some(bb@), None => None };
    let ghost target = filtered_name_set(a@, bs, present);
    let mut r: Vec<Vec<char>> = Vec::new();
    let mut i: usize = 0;
    while i < a.len()
        invariant
            i <= a.len(),
            names_distinct(a@),
            b matches Some(bb) ==> names_distinct(bb@),
            bs == (match b { Some(bb) => Some(bb@), None => None }),
            target == filtered_name_set(a@, bs, present),
            forall|p: int, q: int| 0 <= p < q < r@.len() ==> r@[p]@ != r@[q]@,
            forall|p: int| 0 <= p < r@.len() ==> exists|j: int| 0 <= j < i && (#[trigger] r@[p])@ == a@[j].name_view(),
            forall|x: Seq<char>| names_of(r@).to_set().contains(x) <==> (target.contains(x) && exists|j: int|
                0 <= j < i && a@[j].name_view() == x),
        decreases a.len() - i,
    {
        let n = a[i].name_chars();
        let keep = match b {
            Some(bb) => find_named(bb, &n).is_some() == present,
            None => true,
        };
        let ghost before = r@;
        if keep {
            proof {
                assert forall|p: int| 0 <= p < r@.len() implies r@[p]@ != n@ by {
                    let j = choose|j: int| 0 <= j < i && (#[trigger] r@[p])@ == a@[j].name_view();
                    assert(a@[j].name_view() != a@[i as int].name_view());
                }
            }
            r.push(n);
        }
        proof {
            assert forall|x: Seq<char>| names_of(r@).to_set().contains(x) <==> (target.contains(x) && exists|j: int|
                0 <= j < i + 1 && a@[j].name_view() == x) by {
                if names_of(r@).to_set().contains(x) {
                    let p = choose|p: int| 0 <= p < names_of(r@).len() && names_of(r@)[p] == x;
                    if p < before.len() {
                        assert(names_of(before)[p] == x);
                        assert(names_of(before).to_set().contains(x));
                    } else {
                        assert(x == a@[i as int].name_view());
                        assert(name_set(a@).contains(x));
                        match b {
                            Some(bb) => {
                                if present {
                                    assert(name_set(bb@).contains(x));
                                } else {
                                    assert(!name_set(bb@).contains(x));
                                }
                            },
                            None => {},
                        }
                    }
                }
                if target.contains(x) && exists|j: int| 0 <= j < i + 1 && a@[j].name_view() == x {
                    let j = choose|j: int| 0 <= j < i + 1 && a@[j].name_view() == x;
                    if j < i {
                        assert(names_of(before).to_set().contains(x));
                        let p = choose|p: int| 0 <= p < names_of(before).len() && names_of(before)[p] == x;
                        assert(names_of(r@)[p] == x);
                    } else {
                        match b {
                            Some(bb) => {
                                if present {
                                    assert(name_set(bb@).contains(x));
                                } else {
                                    assert(!name_set(bb@).contains(x));
                                }
                                assert(keep);
                            },
                            None => {},
                        }
                        assert(names_of(r@)[before.len() as int] == x);
                    }
                }
            }
        }
        i += 1;
    }
    proof {
        assert forall|x: Seq<char>| names_of(r@).to_set().contains(x) <==> target.contains(x) by {
            if target.contains(x) {
                assert(name_set(a@).contains(x));
            }
        }
        assert(names_of(r@).to_set() =~= target);
    }
    r
}

} // verus!
