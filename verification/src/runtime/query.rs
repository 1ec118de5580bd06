//! Selecting the items of a sequence that a predicate accepts.

use vstd::prelude::*;

verus! {

/// The items of `s` whose flag in `keep` is set, in order.
pub open spec fn picked<T>(s: Seq<T>, keep: Seq<bool>) -> Seq<T>
    decreases s.len(),
{
    if s.len() == 0 {
        seq![]
    } else {
        let r = picked(s.drop_last(), keep.drop_last());
        if keep.last() {
            r.push(s.last())
        } else {
            r
        }
    }
}

/// Whether `keep` holds, for each item of `s`, an answer that `f` may give for it.
pub open spec fn answers<T, F: Fn(&T) -> bool>(f: F, s: Seq<T>, keep: Seq<bool>) -> bool {
    &&& keep.len() == s.len()
    &&& forall|i: int| 0 <= i < s.len() ==> f.ensures((&s[i],), #[trigger] keep[i])
}

/// The items of `v` that `f` accepts, in order.
pub fn filter_copied<T: Copy, F: Fn(&T) -> bool>(v: &Vec<T>, f: &F) -> (r: Vec<T>)
    requires
        forall|i: int| 0 <= i < v@.len() ==> f.requires((&v@[i],)),
    ensures
        exists|keep: Seq<bool>| answers(*f, v@, keep) && r@ == picked(v@, keep),
{
    let mut r: Vec<T> = Vec::new();
    let ghost mut keep: Seq<bool> = seq![];
    let mut i: usize = 0;
    while i < v.len()
        invariant
            i <= v@.len(),
            forall|j: int| 0 <= j < v@.len() ==> f.requires((&v@[j],)),
            answers(*f, v@.take(i as int), keep),
            r@ == picked(v@.take(i as int), keep),
        decreases v.len() - i,
    {
        let x = v[i];
        let b = f(&x);
        let ghost before = keep;
        if b {
            r.push(x);
        }
        proof {
            keep = keep.push(b);
            let t = v@.take(i + 1);
            assert(t.drop_last() =~= v@.take(i as int));
            assert(keep.drop_last() =~= before);
            assert forall|j: int| 0 <= j < t.len() implies f.ensures((&t[j],), #[trigger] keep[j]) by {
                if j < i {
                    assert(t[j] == v@.take(i as int)[j]);
                }
            }
        }
        i = i + 1;
    }
    assert(v@.take(i as int) =~= v@);
    r
}

/// The items that a sequence of references refers to.
pub open spec fn derefs<'a, T>(s: Seq<&'a T>) -> Seq<T> {
    s.map_values(|x: &'a T| *x)
}

/// References to the items of `v` that `f` accepts, in order.
pub fn filter_refs<'a, T, F: Fn(&T) -> bool>(v: &'a [T], f: &F) -> (r: Vec<&'a T>)
    requires
        forall|i: int| 0 <= i < v@.len() ==> f.requires((&v@[i],)),
    ensures
        exists|keep: Seq<bool>| answers(*f, v@, keep) && derefs(r@) == picked(v@, keep),
{
    let mut r: Vec<&'a T> = Vec::new();
    let ghost mut keep: Seq<bool> = seq![];
    let mut i: usize = 0;
    while i < v.len()
        invariant
            i <= v@.len(),
            forall|j: int| 0 <= j < v@.len() ==> f.requires((&v@[j],)),
            answers(*f, v@.take(i as int), keep),
            derefs(r@) == picked(v@.take(i as int), keep),
        decreases v.len() - i,
    {
        let x = &v[i];
        let b = f(x);
        let ghost before = keep;
        let ghost rb = r@;
        if b {
            r.push(x);
            assert(derefs(r@) =~= derefs(rb).push(*x));
        }
        proof {
            keep = keep.push(b);
            let t = v@.take(i + 1);
            assert(t.drop_last() =~= v@.take(i as int));
            assert(keep.drop_last() =~= before);
            assert forall|j: int| 0 <= j < t.len() implies f.ensures((&t[j],), #[trigger] keep[j]) by {
                if j < i {
                    assert(t[j] == v@.take(i as int)[j]);
                }
            }
        }
        i = i + 1;
    }
    assert(v@.take(i as int) =~= v@);
    r
}

/// Whether `f` accepts some item of `v`.
pub fn any_of<T, F: Fn(&T) -> bool>(v: &[T], f: &F) -> (r: bool)
    requires
        forall|i: int| 0 <= i < v@.len() ==> f.requires((&v@[i],)),
    ensures
        r ==> exists|i: int| 0 <= i < v@.len() && f.ensures((&v@[i],), true),
        !r ==> forall|i: int| 0 <= i < v@.len() ==> f.ensures((&v@[i],), false),
{
    let mut i: usize = 0;
    while i < v.len()
        invariant
            i <= v@.len(),
            forall|j: int| 0 <= j < v@.len() ==> f.requires((&v@[j],)),
            forall|j: int| 0 <= j < i ==> f.ensures((&v@[j],), false),
        decreases v.len() - i,
    {
        if f(&v[i]) {
            return true;
        }
        i = i + 1;
    }
    false
}

} // verus!
