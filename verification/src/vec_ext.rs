//! Small extensions for [`Vec`].

use vstd::prelude::*;
use vstd::std_specs::vec::vec_index_mut;

verus! {

/// Pushes `t` onto `v` and returns a mutable reference to it.
pub fn push_return<T>(v: &mut Vec<T>, t: T) -> (r: &mut T)
    ensures
        *r == t,
        final(v)@ == old(v)@.push(*final(r)),
{
    v.push(t);
    let n = v.len();
    proof {
        assert(forall|y: T|
            old(v)@.push(t).update(old(v)@.len() as int, y) =~= old(v)@.push(y));
    }
    vec_index_mut(v, n - 1)
}

/// The predicate turns down every element of `s` before position `k`.
pub open spec fn rejects_prefix<T, F: Fn(&T) -> bool>(predicate: F, s: Seq<T>, k: int) -> bool {
    forall|j: int| 0 <= j < k ==> call_ensures(predicate, (&s[j],), false)
}

/// Finds the first element of `v` matching `predicate`, or pushes
/// `fallback` and returns a mutable reference to it.
pub fn find_or_push<T, F: Fn(&T) -> bool>(v: &mut Vec<T>, fallback: T, predicate: F) -> (r:
    &mut T)
    requires
        forall|i: int|
            0 <= i < old(v)@.len() ==> #[trigger] call_requires(predicate, (&old(v)@[i],)),
    ensures
        exists|k: int|
            ({
                &&& 0 <= k <= old(v)@.len()
                &&& #[trigger] rejects_prefix(predicate, old(v)@, k)
                &&& if k < old(v)@.len() {
                    &&& call_ensures(predicate, (&old(v)@[k],), true)
                    &&& *r == old(v)@[k]
                    &&& final(v)@ == old(v)@.update(k, *final(r))
                } else {
                    &&& *r == fallback
                    &&& final(v)@ == old(v)@.push(fallback).update(k, *final(r))
                }
            }),
{
    let ghost orig = v@;
    let n = v.len();
    let mut i: usize = 0;
    let mut found: Option<usize> = None;
    while i < n && found.is_none()
        invariant
            orig == old(v)@,
            v@ == orig,
            i <= n,
            n == orig.len(),
            found is None ==> rejects_prefix(predicate, orig, i as int),
            found matches Some(k) ==> ({
                &&& 0 <= k < orig.len()
                &&& k == i
                &&& rejects_prefix(predicate, orig, k as int)
                &&& call_ensures(predicate, (&orig[k as int],), true)
            }),
            forall|j: int| 0 <= j < orig.len() ==> #[trigger] call_requires(
                predicate,
                (&orig[j],),
            ),
        decreases n - i + (if found is None { 1int } else { 0int }),
    {
        if predicate(&v[i]) {
            found = Some(i);
        } else {
            i += 1;
        }
    }
    match found {
        Some(k) => vec_index_mut(v, k),
        None => {
            v.push(fallback);
            vec_index_mut(v, n)
        },
    }
}

} // verus!
