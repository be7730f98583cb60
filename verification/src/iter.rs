//! Stepwise views of vectors: fixed-size chunks, neighbor-aware
//! filtering, open-bordered pairs, and a length-carrying wrapper.

use vstd::prelude::*;

verus! {

/// Represents a pair of items, or the border elements.
#[derive(Debug, PartialEq, Eq)]
pub enum State<T> {
    /// The first element.
    Start(T),
    /// A pair of elements.
    Middle(T, T),
    /// The last element.
    End(T),
}

impl<T> State<T> {
    /// Classifies a pair of optional neighbors.
    pub fn new(a: Option<T>, b: Option<T>) -> (r: Option<State<T>>)
        ensures
            a is None && b is None ==> r is None,
            b matches Some(y) ==> (match a {
                None => r == Some(State::<T>::Start(y)),
                Some(x) => r == Some(State::<T>::Middle(x, y)),
            }),
            a matches Some(x) ==> (b is None ==> r == Some(State::<T>::End(x))),
    {
        match (a, b) {
            (None, None) => None,
            (None, Some(b)) => Some(State::Start(b)),
            (Some(a), Some(b)) => Some(State::Middle(a, b)),
            (Some(a), None) => Some(State::End(a)),
        }
    }
}

/// The element of the open-bordered pair sequence of `s` at step `k`:
/// the first element alone, then each adjacent pair, then the last
/// element alone.
pub open spec fn open_border_item<T>(s: Seq<T>, k: int) -> Option<State<T>> {
    if s.len() == 0 || k < 0 || k > s.len() {
        None
    } else if k == 0 {
        Some(State::Start(s[0]))
    } else if k < s.len() {
        Some(State::Middle(s[k - 1], s[k]))
    } else {
        Some(State::End(s[s.len() - 1]))
    }
}

/// Steps through all pairs of adjacent elements, with special cases for
/// the first and last element.
pub struct OpenBorderWindowIterator<T> {
    /// The elements being stepped through.
    pub items: Vec<T>,
    /// The number of steps already taken.
    pub pos: usize,
}

impl<T: Copy> OpenBorderWindowIterator<T> {
    /// Whether the step count is still within range.
    pub open spec fn wf(self) -> bool {
        self.pos <= self.items@.len() + 1
    }

    /// Starts stepping through `items`.
    pub fn new(items: Vec<T>) -> (r: Self)
        ensures
            r.items@ == items@,
            r.pos == 0,
            r.wf(),
    {
        OpenBorderWindowIterator { items, pos: 0 }
    }

    /// The next border-or-pair state, if any remains.
    pub fn next(&mut self) -> (r: Option<State<T>>)
        requires
            old(self).wf(),
            old(self).items@.len() < usize::MAX,
        ensures
            final(self).wf(),
            final(self).items@ == old(self).items@,
            r == open_border_item(old(self).items@, old(self).pos as int),
            r is Some ==> final(self).pos == old(self).pos + 1,
            r is None ==> final(self).pos == old(self).pos,
    {
        let n = self.items.len();
        if n == 0 || self.pos > n {
            return None;
        }
        let k = self.pos;
        self.pos += 1;
        if k == 0 {
            Some(State::Start(self.items[0]))
        } else if k < n {
            Some(State::Middle(self.items[k - 1], self.items[k]))
        } else {
            Some(State::End(self.items[n - 1]))
        }
    }

    /// How many steps remain.
    pub fn len(&self) -> (r: usize)
        requires
            self.wf(),
            self.items@.len() < usize::MAX,
        ensures
            r == self.items@.len() + 1 - self.pos,
    {
        self.items.len() + 1 - self.pos
    }
}

/// The chunk of `s` that starts at `pos` and takes up to `window` items.
pub open spec fn chunk_at<T>(s: Seq<T>, pos: int, window: int) -> Seq<T> {
    s.subrange(pos, if pos + window <= s.len() {
        pos + window
    } else {
        s.len() as int
    })
}

/// Cuts a vector into chunks of `window_size` items; each next chunk
/// starts `hop_length` items after the last one, but never past what the
/// previous chunk covered.
pub struct ChunkedIterator<T> {
    /// The elements being chunked.
    pub items: Vec<T>,
    /// The size of each chunk; the final chunks may be shorter.
    pub window_size: usize,
    /// How far each chunk's start lies after the previous one's.
    pub hop_length: usize,
    /// Where the next chunk starts.
    pub pos: usize,
}

impl<T: Copy> ChunkedIterator<T> {
    /// Starts chunking `items`.
    pub fn new(items: Vec<T>, window_size: usize, hop_length: usize) -> (r: Self)
        ensures
            r.items@ == items@,
            r.window_size == window_size,
            r.hop_length == hop_length,
            r.pos == 0,
    {
        ChunkedIterator { items, window_size, hop_length, pos: 0 }
    }

    /// The next chunk, if items remain and chunks are not empty.
    pub fn next(&mut self) -> (r: Option<Vec<T>>)
        ensures
            final(self).items@ == old(self).items@,
            final(self).window_size == old(self).window_size,
            final(self).hop_length == old(self).hop_length,
            old(self).pos >= old(self).items@.len() || old(self).window_size == 0 ==> r is None
                && final(self).pos == old(self).pos,
            old(self).pos < old(self).items@.len() && old(self).window_size > 0 ==> ({
                let chunk = chunk_at(
                    old(self).items@,
                    old(self).pos as int,
                    old(self).window_size as int,
                );
                &&& r matches Some(c) && c@ == chunk
                &&& final(self).pos == old(self).pos + (if old(self).hop_length
                    <= chunk.len() {
                    old(self).hop_length as int
                } else {
                    chunk.len() as int
                })
            }),
    {
        let n = self.items.len();
        if self.pos >= n || self.window_size == 0 {
            return None;
        }
        let end = if self.window_size <= n && self.pos <= n - self.window_size {
            self.pos + self.window_size
        } else {
            n
        };
        let mut chunk: Vec<T> = Vec::new();
        let mut i = self.pos;
        while i < end
            invariant
                self.pos <= i <= end <= self.items@.len(),
                chunk@ =~= self.items@.subrange(self.pos as int, i as int),
            decreases end - i,
        {
            chunk.push(self.items[i]);
            i += 1;
        }
        let taken = end - self.pos;
        let advance = if self.hop_length <= taken {
            self.hop_length
        } else {
            taken
        };
        self.pos += advance;
        Some(chunk)
    }

    /// How many chunks remain, when the hop is positive.
    pub fn len(&self) -> (r: usize)
        requires
            self.hop_length >= 1,
            self.pos <= self.items@.len(),
        ensures
            r == (self.items@.len() - self.pos + self.hop_length - 1) as int / (
            self.hop_length as int),
    {
        let rem = self.items.len() - self.pos;
        if rem == 0 {
            proof {
                vstd::arithmetic::div_mod::lemma_basic_div(
                    self.hop_length - 1,
                    self.hop_length as int,
                );
            }
            0
        } else {
            proof {
                vstd::arithmetic::div_mod::lemma_div_plus_one(rem - 1, self.hop_length as int);
            }
            1 + (rem - 1) / self.hop_length
        }
    }
}

/// The elements of `s` kept by the corresponding decisions.
pub open spec fn filtered<T>(s: Seq<T>, keep: Seq<bool>) -> Seq<T>
    decreases s.len(),
{
    if s.len() == 0 {
        Seq::empty()
    } else {
        let rest = filtered(s.skip(1), keep.skip(1));
        if keep[0] {
            seq![s[0]] + rest
        } else {
            rest
        }
    }
}

/// Filtering distributes over appending one element and its decision.
proof fn lemma_filtered_push<T>(s: Seq<T>, keep: Seq<bool>, x: T, b: bool)
    requires
        s.len() == keep.len(),
    ensures
        filtered(s.push(x), keep.push(b)) == filtered(s, keep) + if b {
            seq![x]
        } else {
            Seq::<T>::empty()
        },
    decreases s.len(),
{
    if s.len() == 0 {
        assert(s.push(x).skip(1) =~= s);
        assert(keep.push(b).skip(1) =~= keep);
        assert(s.push(x)[0] == x);
        assert(keep.push(b)[0] == b);
        assert(filtered(s.push(x), keep.push(b)) =~= filtered(s, keep) + if b {
            seq![x]
        } else {
            Seq::<T>::empty()
        });
    } else {
        lemma_filtered_push(s.skip(1), keep.skip(1), x, b);
        assert(s.push(x).skip(1) =~= s.skip(1).push(x));
        assert(keep.push(b).skip(1) =~= keep.skip(1).push(b));
        assert(s.push(x)[0] == s[0]);
        assert(keep.push(b)[0] == keep[0]);
        assert(filtered(s.push(x), keep.push(b)) =~= filtered(s, keep) + if b {
            seq![x]
        } else {
            Seq::<T>::empty()
        });
    }
}

/// The left neighbor of position `i`, if any.
pub open spec fn left_of<T>(s: Seq<T>, i: int) -> Option<T> {
    if i == 0 {
        None
    } else {
        Some(s[i - 1])
    }
}

/// The right neighbor of position `i`, if any.
pub open spec fn right_of<T>(s: Seq<T>, i: int) -> Option<T> {
    if i + 1 < s.len() {
        Some(s[i + 1])
    } else {
        None
    }
}

/// Whether the predicate may be asked about position `i` of `s`.
pub open spec fn surrounding_call_requires<T, F: Fn(&Option<T>, &T, &Option<T>) -> bool>(
    predicate: F,
    s: Seq<T>,
    i: int,
) -> bool {
    call_requires(predicate, (&left_of(s, i), &s[i], &right_of(s, i)))
}

/// Whether `keep` is an answer the predicate can give about position `i`
/// of `s`.
pub open spec fn surrounding_call_ensures<T, F: Fn(&Option<T>, &T, &Option<T>) -> bool>(
    predicate: F,
    s: Seq<T>,
    i: int,
    keep: bool,
) -> bool {
    call_ensures(predicate, (&left_of(s, i), &s[i], &right_of(s, i)), keep)
}

/// Filters elements with respect to their neighbors: the predicate sees
/// each element together with its left and right neighbor, and decides
/// whether it is kept.
pub struct SurroundingFilterIterator<T> {
    /// The elements that passed, in order.
    pub kept: Vec<T>,
    /// The next position handed out.
    pub pos: usize,
}

impl<T: Copy> SurroundingFilterIterator<T> {
    /// Applies the predicate to every element of `items` together with
    /// its neighbors; the survivors are then stepped through.
    pub fn new<F: Fn(&Option<T>, &T, &Option<T>) -> bool>(items: Vec<T>, predicate: F) -> (r:
        Self)
        requires
            forall|i: int|
                0 <= i < items@.len() ==> #[trigger] surrounding_call_requires(
                    predicate,
                    items@,
                    i,
                ),
        ensures
            r.pos == 0,
            exists|keep: Seq<bool>|
                ({
                    &&& keep.len() == items@.len()
                    &&& forall|i: int|
                        0 <= i < items@.len() ==> surrounding_call_ensures(
                            predicate,
                            items@,
                            i,
                            #[trigger] keep[i],
                        )
                    &&& r.kept@ == filtered(items@, keep)
                }),
    {
        let n = items.len();
        let mut kept: Vec<T> = Vec::new();
        let ghost mut keep: Seq<bool> = Seq::empty();
        let mut i: usize = 0;
        proof {
            assert(items@.take(0) =~= Seq::<T>::empty());
            assert(filtered(items@.take(0), keep) =~= Seq::<T>::empty());
        }
        while i < n
            invariant
                i <= n,
                n == items@.len(),
                keep.len() == i,
                forall|j: int|
                    0 <= j < i ==> surrounding_call_ensures(
                        predicate,
                        items@,
                        j,
                        #[trigger] keep[j],
                    ),
                kept@ == filtered(items@.take(i as int), keep),
                forall|j: int|
                    0 <= j < items@.len() ==> #[trigger] surrounding_call_requires(
                        predicate,
                        items@,
                        j,
                    ),
            decreases n - i,
        {
            let prev: Option<T> = if i == 0 {
                None
            } else {
                Some(items[i - 1])
            };
            let cur: T = items[i];
            let nxt: Option<T> = if i + 1 < n {
                Some(items[i + 1])
            } else {
                None
            };
            proof {
                assert(surrounding_call_requires(predicate, items@, i as int));
                assert(prev == left_of(items@, i as int));
                assert(cur == items@[i as int]);
                assert(nxt == right_of(items@, i as int));
            }
            let keep_it = predicate(&prev, &cur, &nxt);
            proof {
                assert(surrounding_call_ensures(predicate, items@, i as int, keep_it));
                lemma_filtered_push(items@.take(i as int), keep, items@[i as int], keep_it);
                assert(items@.take(i + 1) =~= items@.take(i as int).push(items@[i as int]));
            }
            if keep_it {
                kept.push(cur);
            }
            proof {
                keep = keep.push(keep_it);
            }
            i += 1;
        }
        proof {
            assert(items@.take(n as int) =~= items@);
        }
        SurroundingFilterIterator { kept, pos: 0 }
    }

    /// The next surviving element, if any remains.
    pub fn next(&mut self) -> (r: Option<T>)
        requires
            old(self).pos <= old(self).kept@.len(),
        ensures
            final(self).kept@ == old(self).kept@,
            old(self).pos < old(self).kept@.len() ==> r == Some(
                old(self).kept@[old(self).pos as int],
            ) && final(self).pos == old(self).pos + 1,
            old(self).pos >= old(self).kept@.len() ==> r is None && final(self).pos == old(self).pos,
    {
        if self.pos < self.kept.len() {
            let v = self.kept[self.pos];
            self.pos += 1;
            Some(v)
        } else {
            None
        }
    }
}

/// Wraps a vector as a stepwise source that carries a claimed size.
pub struct ExactSizeWrapper<T> {
    /// The remaining elements.
    pub items: Vec<T>,
    /// How many elements were already handed out, front and back together.
    pub consumed: usize,
    /// The size the source was claimed to have.
    pub size: usize,
}

impl<T> ExactSizeWrapper<T> {
    /// Wraps `items`, claiming `size` elements.
    pub fn new(items: Vec<T>, size: usize) -> (r: Self)
        ensures
            r.items@ == items@,
            r.consumed == 0,
            r.size == size,
    {
        ExactSizeWrapper { items, consumed: 0, size }
    }

    /// The next element from the front, if any remains.
    pub fn next(&mut self) -> (r: Option<T>)
        requires
            old(self).consumed < usize::MAX,
        ensures
            final(self).size == old(self).size,
            old(self).items@.len() == 0 ==> r is None && final(self).items@ == old(self).items@
                && final(self).consumed == old(self).consumed,
            old(self).items@.len() > 0 ==> r == Some(old(self).items@[0]) && final(self).items@
                == old(self).items@.skip(1) && final(self).consumed == old(self).consumed + 1,
    {
        if self.items.len() == 0 {
            None
        } else {
            let v = self.items.remove(0);
            self.consumed += 1;
            proof {
                assert(final(self).items@ =~= old(self).items@.skip(1));
            }
            Some(v)
        }
    }

    /// The next element from the back, if any remains.
    pub fn next_back(&mut self) -> (r: Option<T>)
        requires
            old(self).consumed < usize::MAX,
        ensures
            final(self).size == old(self).size,
            old(self).items@.len() == 0 ==> r is None && final(self).items@ == old(self).items@
                && final(self).consumed == old(self).consumed,
            old(self).items@.len() > 0 ==> r == Some(old(self).items@.last()) && final(self).items@ == old(self).items@.drop_last() && final(self).consumed == old(self).consumed + 1,
    {
        let r = self.items.pop();
        if r.is_some() {
            self.consumed += 1;
        }
        r
    }

    /// How many of the claimed elements remain.
    pub fn len(&self) -> (r: usize)
        requires
            self.consumed <= self.size,
        ensures
            r == self.size - self.consumed,
    {
        self.size - self.consumed
    }
}

/// A fold over `items` from `init` through the intermediate accumulators
/// `accs`, where every step succeeded.
pub open spec fn folds_over<F: Fn(ACC, T) -> Result<ACC, E>, T, ACC, E>(
    f: F,
    items: Seq<T>,
    init: ACC,
    accs: Seq<ACC>,
) -> bool {
    &&& accs.len() == items.len() + 1
    &&& accs[0] == init
    &&& forall|i: int|
        0 <= i < items.len() ==> call_ensures(f, (accs[i], #[trigger] items[i]), Ok::<ACC, E>(
            accs[i + 1],
        ))
}

/// Collects the elements one by one into an accumulator, but returns
/// instantly when `reduce` returns an error.
///
/// # Errors
/// Returns any error that `reduce` returns; later elements are then
/// never looked at.
pub fn reduce_early_return<T, ACC, E, F: Fn(ACC, T) -> Result<ACC, E>>(
    items: Vec<T>,
    initial: ACC,
    reduce: F,
) -> (r: Result<ACC, E>)
    requires
        forall|acc: ACC, t: T| items@.contains(t) ==> call_requires(reduce, (acc, t)),
    ensures
        r matches Ok(a) ==> exists|accs: Seq<ACC>|
            folds_over::<F, T, ACC, E>(reduce, items@, initial, accs) && accs.last() == a,
        r matches Err(e) ==> exists|accs: Seq<ACC>, k: int|
            ({
                &&& 0 <= k < items@.len()
                &&& folds_over::<F, T, ACC, E>(reduce, items@.take(k), initial, accs)
                &&& call_ensures(reduce, (accs.last(), items@[k]), Err::<ACC, E>(e))
            }),
{
    let ghost all = items@;
    let mut rest = items;
    let total = rest.len();
    let mut acc = initial;
    let ghost mut accs: Seq<ACC> = seq![initial];
    let mut i: usize = 0;
    while rest.len() > 0
        invariant
            all == items@,
            all.len() == total as int,
            i as int + rest@.len() == all.len(),
            rest@ =~= all.skip(i as int),
            accs.len() == i + 1,
            accs[0] == initial,
            folds_over::<F, T, ACC, E>(reduce, all.take(i as int), initial, accs),
            accs.last() == acc,
            forall|a: ACC, t: T| all.contains(t) ==> call_requires(reduce, (a, t)),
        decreases rest@.len(),
    {
        let x = rest.remove(0);
        proof {
            assert(all.contains(all[i as int]));
        }
        match reduce(acc, x) {
            Result::Ok(value) => {
                acc = value;
                proof {
                    accs = accs.push(value);
                    assert(all.take(i + 1) =~= all.take(i as int).push(all[i as int]));
                    assert forall|j: int| 0 <= j < i + 1 implies #[trigger] call_ensures(
                        reduce,
                        (accs[j], all.take(i + 1)[j]),
                        Ok::<ACC, E>(accs[j + 1]),
                    ) by {
                        assert(all.take(i + 1)[j] == all[j]);
                        if j < i {
                            assert(all.take(i as int)[j] == all[j]);
                        }
                    }
                }
                i += 1;
            },
            Result::Err(e) => {
                proof {
                    assert(x == all[i as int]);
                    assert(folds_over::<F, T, ACC, E>(reduce, all.take(i as int), initial, accs));
                    assert(call_ensures(reduce, (accs.last(), all[i as int]), Err::<ACC, E>(e)));
                    assert(exists|accs2: Seq<ACC>, k: int|
                        ({
                            &&& 0 <= k < items@.len()
                            &&& folds_over::<F, T, ACC, E>(reduce, items@.take(k), initial, accs2)
                            &&& call_ensures(reduce, (accs2.last(), items@[k]), Err::<ACC, E>(e))
                        }));
                }
                return Result::Err(e);
            },
        }
    }
    proof {
        assert(all.take(i as int) =~= all);
        assert(folds_over::<F, T, ACC, E>(reduce, all, initial, accs));
    }
    Result::Ok(acc)
}

} // verus!
