//! A fixed-size container of `N + M` elements addressed as one array.

use vstd::prelude::*;
use vstd::std_specs::vec::vec_index_mut;

verus! {

/// An array of size `N + M`, filled element by element.
pub struct ArrayNPM<const N: usize, const M: usize, T> {
    /// The elements; always exactly `N + M` of them.
    pub data: Vec<T>,
}

impl<const N: usize, const M: usize, T> ArrayNPM<N, M, T> {
    /// The container always holds exactly `N + M` elements.
    pub open spec fn wf(self) -> bool {
        self.data@.len() == N + M
    }

    /// Populates this array with values produced by `cb`.
    pub fn from_fn<F: Fn(usize) -> T>(cb: F) -> (r: Self)
        requires
            N + M <= usize::MAX,
            forall|i: usize| i < N + M ==> call_requires(cb, (i,)),
        ensures
            r.wf(),
            forall|i: int|
                0 <= i < N + M ==> call_ensures(cb, (i as usize,), #[trigger] r.data@[i]),
    {
        let total = N + M;
        let mut data: Vec<T> = Vec::new();
        let mut i: usize = 0;
        while i < total
            invariant
                i <= total,
                total == N + M,
                N + M <= usize::MAX,
                data@.len() == i,
                forall|j: int| 0 <= j < i ==> call_ensures(cb, (j as usize,), #[trigger] data@[j]),
                forall|j: usize| j < N + M ==> call_requires(cb, (j,)),
            decreases total - i,
        {
            data.push(cb(i));
            i += 1;
        }
        ArrayNPM { data }
    }

    /// The element at position `idx`, counting through both halves.
    pub fn index(&self, idx: usize) -> (r: &T)
        requires
            self.wf(),
            idx < N + M,
        ensures
            *r == self.data@[idx as int],
    {
        &self.data[idx]
    }

    /// The element at position `idx`, mutably.
    pub fn index_mut(&mut self, idx: usize) -> (r: &mut T)
        requires
            old(self).wf(),
            idx < N + M,
        ensures
            *r == old(self).data@[idx as int],
            final(self).data@ == old(self).data@.update(idx as int, *final(r)),
    {
        vec_index_mut(&mut self.data, idx)
    }

    /// How many elements the container holds.
    pub fn len(&self) -> (r: usize)
        requires
            self.wf(),
        ensures
            r == N + M,
    {
        self.data.len()
    }
}

} // verus!
