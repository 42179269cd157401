//! Slice utilities for the target's freestanding core: element access,
//! splitting, searching, in-place reversal, and the window, chunk and split
//! iterators. The classical implementations go through raw pointers; here
//! everything is index arithmetic over borrowed slices, with proved
//! contracts.

use vstd::prelude::*;
use vstd::std_specs::cmp::PartialEqSpec;

verus! {

/// The element at `index`, where there is one.
pub fn get<T>(v: &[T], index: usize) -> (r: Option<&T>)
    ensures
        match r {
            Some(e) => index < v@.len() && *e == v@[index as int],
            None => index >= v@.len(),
        },
{
    if index < v.len() {
        Some(&v[index])
    } else {
        None
    }
}

/// The first element, of a non-empty slice.
pub fn first<T>(v: &[T]) -> (r: Option<&T>)
    ensures
        match r {
            Some(e) => v@.len() > 0 && *e == v@[0],
            None => v@.len() == 0,
        },
{
    if v.len() > 0 {
        Some(&v[0])
    } else {
        None
    }
}

/// The last element, of a non-empty slice.
pub fn last<T>(v: &[T]) -> (r: Option<&T>)
    ensures
        match r {
            Some(e) => v@.len() > 0 && *e == v@.last(),
            None => v@.len() == 0,
        },
{
    if v.len() > 0 {
        Some(&v[v.len() - 1])
    } else {
        None
    }
}

/// The first element and everything after it, of a non-empty slice.
pub fn split_first<T>(v: &[T]) -> (r: Option<(&T, &[T])>)
    ensures
        match r {
            Some(p) => v@.len() > 0 && *p.0 == v@[0] && p.1@ == v@.drop_first(),
            None => v@.len() == 0,
        },
{
    if v.len() > 0 {
        let rest = &v[1..v.len()];
        proof {
            assert(rest@ =~= v@.drop_first());
        }
        Some((&v[0], rest))
    } else {
        None
    }
}

/// The last element and everything before it, of a non-empty slice.
pub fn split_last<T>(v: &[T]) -> (r: Option<(&T, &[T])>)
    ensures
        match r {
            Some(p) => v@.len() > 0 && *p.0 == v@.last() && p.1@ == v@.drop_last(),
            None => v@.len() == 0,
        },
{
    if v.len() > 0 {
        let rest = &v[0..v.len() - 1];
        proof {
            assert(rest@ =~= v@.drop_last());
        }
        Some((&v[v.len() - 1], rest))
    } else {
        None
    }
}

/// Divides the slice at `mid`: the first part holds the indices below `mid`,
/// the second the rest.
pub fn split_at<T>(v: &[T], mid: usize) -> (r: (&[T], &[T]))
    requires
        mid <= v@.len(),
    ensures
        r.0@ == v@.take(mid as int),
        r.1@ == v@.skip(mid as int),
{
    let head = &v[0..mid];
    let tail = &v[mid..v.len()];
    proof {
        assert(head@ =~= v@.take(mid as int));
        assert(tail@ =~= v@.skip(mid as int));
    }
    (head, tail)
}

/// Divides the slice at `mid` into two exclusively borrowed parts; writes
/// through either part land in the corresponding places of the slice.
pub fn split_at_mut<T>(v: &mut [T], mid: usize) -> (r: (&mut [T], &mut [T]))
    requires
        mid <= old(v)@.len(),
    ensures
        r.0@ == old(v)@.take(mid as int),
        r.1@ == old(v)@.skip(mid as int),
        final(v)@ == final(r.0)@ + final(r.1)@,
{
    let r = v.split_at_mut(mid);
    proof {
        assert(r.0@ =~= old(v)@.take(mid as int));
        assert(r.1@ =~= old(v)@.skip(mid as int));
    }
    r
}

/// An exclusive borrow of the first element, of a non-empty slice.
pub fn first_mut<T>(v: &mut [T]) -> (r: Option<&mut T>)
    ensures
        match r {
            Some(e) => {
                &&& old(v)@.len() > 0
                &&& *e == old(v)@[0]
                &&& final(v)@ == old(v)@.update(0, *final(e))
            },
            None => old(v)@.len() == 0 && final(v)@.len() == 0,
        },
{
    v.first_mut()
}

/// An exclusive borrow of the last element, of a non-empty slice.
pub fn last_mut<T>(v: &mut [T]) -> (r: Option<&mut T>)
    ensures
        match r {
            Some(e) => {
                &&& old(v)@.len() > 0
                &&& *e == old(v)@.last()
                &&& final(v)@ == old(v)@.update(old(v)@.len() - 1, *final(e))
            },
            None => old(v)@.len() == 0 && final(v)@.len() == 0,
        },
{
    v.last_mut()
}

/// Whether some element of the slice equals `x`. Stated under the standard
/// proviso that the element type's equality obeys its specification.
pub fn contains<T: PartialEq>(v: &[T], x: &T) -> (r: bool)
    ensures
        T::obeys_eq_spec() ==> r == (exists|i: int| 0 <= i < v@.len() && x.eq_spec(&v@[i])),
{
    let mut i: usize = 0;
    while i < v.len()
        invariant
            i <= v@.len(),
            T::obeys_eq_spec() ==> forall|j: int| 0 <= j < i ==> !x.eq_spec(&v@[j]),
        decreases v@.len() - i,
    {
        if *x == v[i] {
            proof {
                if T::obeys_eq_spec() {
                    assert(x.eq_spec(&v@[i as int]));
                }
            }
            return true;
        }
        i = i + 1;
    }
    false
}

/// Whether `needle` is a prefix of the slice, element by element.
pub fn starts_with<T: PartialEq>(v: &[T], needle: &[T]) -> (r: bool)
    ensures
        T::obeys_eq_spec() ==> r == (needle@.len() <= v@.len() && (forall|i: int|
            0 <= i < needle@.len() ==> v@[i].eq_spec(&needle@[i]))),
{
    let n = needle.len();
    if n > v.len() {
        return false;
    }
    let mut i: usize = 0;
    while i < n
        invariant
            n == needle@.len(),
            n <= v@.len(),
            i <= n,
            T::obeys_eq_spec() ==> forall|j: int| 0 <= j < i ==> v@[j].eq_spec(&needle@[j]),
        decreases n - i,
    {
        if !(v[i] == needle[i]) {
            return false;
        }
        i = i + 1;
    }
    true
}

/// Whether `needle` is a suffix of the slice, element by element.
pub fn ends_with<T: PartialEq>(v: &[T], needle: &[T]) -> (r: bool)
    ensures
        T::obeys_eq_spec() ==> r == (needle@.len() <= v@.len() && (forall|i: int|
            0 <= i < needle@.len() ==> v@[v@.len() - needle@.len() + i].eq_spec(&needle@[i]))),
{
    let n = needle.len();
    if n > v.len() {
        return false;
    }
    let off = v.len() - n;
    let mut i: usize = 0;
    while i < n
        invariant
            n == needle@.len(),
            n <= v@.len() <= usize::MAX,
            off == v@.len() - n,
            i <= n,
            T::obeys_eq_spec() ==> forall|j: int| 0 <= j < i ==> v@[off + j].eq_spec(&needle@[j]),
        decreases n - i,
    {
        if !(v[off + i] == needle[i]) {
            return false;
        }
        i = i + 1;
    }
    true
}

/// Binary search over a sorted slice of machine integers. On success the
/// returned index holds `x`; on failure it is the insertion point that keeps
/// the slice sorted: everything below it is smaller than `x`, everything
/// from it on is larger.
pub fn binary_search(v: &[u64], x: u64) -> (r: Result<usize, usize>)
    requires
        forall|i: int, j: int| 0 <= i <= j < v@.len() ==> v@[i] <= v@[j],
    ensures
        match r {
            Ok(i) => i < v@.len() && v@[i as int] == x,
            Err(i) => {
                &&& i <= v@.len()
                &&& forall|j: int| 0 <= j < i ==> v@[j] < x
                &&& forall|j: int| i <= j < v@.len() ==> v@[j] > x
            },
        },
{
    let mut lo: usize = 0;
    let mut hi: usize = v.len();
    while lo < hi
        invariant
            lo <= hi <= v@.len(),
            forall|i: int, j: int| 0 <= i <= j < v@.len() ==> v@[i] <= v@[j],
            forall|j: int| 0 <= j < lo ==> v@[j] < x,
            forall|j: int| hi <= j < v@.len() ==> v@[j] > x,
        decreases hi - lo,
    {
        let mid = lo + (hi - lo) / 2;
        if v[mid] == x {
            return Ok(mid);
        } else if v[mid] < x {
            lo = mid + 1;
        } else {
            hi = mid;
        }
    }
    Err(lo)
}

/// Exchanges the elements at `a` and `b`. The exchange goes through copies
/// here, where the classical operation swaps through raw pointers.
pub fn swap<T: Copy>(v: &mut std::vec::Vec<T>, a: usize, b: usize)
    requires
        a < old(v)@.len(),
        b < old(v)@.len(),
    ensures
        final(v)@ == old(v)@.update(a as int, old(v)@[b as int]).update(
            b as int,
            old(v)@[a as int],
        ),
{
    let x = v[a];
    let y = v[b];
    let slot_a = vstd::std_specs::vec::vec_index_mut(v, a);
    *slot_a = y;
    let slot_b = vstd::std_specs::vec::vec_index_mut(v, b);
    *slot_b = x;
    proof {
        assert(final(v)@ =~= old(v)@.update(a as int, old(v)@[b as int]).update(
            b as int,
            old(v)@[a as int],
        ));
    }
}

/// Overwrites the whole array with the elements of `src`, which must have
/// the same length.
pub fn copy_from_slice<T: Copy>(v: &mut std::vec::Vec<T>, src: &[T])
    requires
        old(v)@.len() == src@.len(),
    ensures
        final(v)@ == src@,
{
    let n = v.len();
    let mut i: usize = 0;
    while i < n
        invariant
            n == v@.len(),
            v@.len() == src@.len(),
            i <= n,
            forall|j: int| 0 <= j < i ==> v@[j] == src@[j],
        decreases n - i,
    {
        let slot = vstd::std_specs::vec::vec_index_mut(v, i);
        *slot = src[i];
        i = i + 1;
    }
    proof {
        assert(final(v)@ =~= src@);
    }
}

/// Reverses the array in place.
pub fn reverse<T: Copy>(v: &mut std::vec::Vec<T>)
    ensures
        final(v)@ == old(v)@.reverse(),
{
    let n = v.len();
    let mut i: usize = 0;
    while i < n / 2
        invariant
            n == v@.len(),
            i <= n / 2,
            forall|j: int| 0 <= j < i ==> v@[j] == old(v)@[n - 1 - j],
            forall|j: int| 0 <= j < i ==> v@[n - 1 - j] == old(v)@[j],
            forall|j: int| i <= j < n - i ==> v@[j] == old(v)@[j],
        decreases n - i,
    {
        swap(v, i, n - 1 - i);
        i = i + 1;
    }
    proof {
        assert(final(v)@ =~= old(v)@.reverse());
    }
}

/// An iterator over all contiguous windows of length `size`: the windows
/// overlap, and there is none at all where the slice is shorter than `size`.
pub struct Windows<'a, T> {
    /// The slice looked into.
    pub v: &'a [T],
    /// The window length; at least one.
    pub size: usize,
    /// Where the next window starts.
    pub pos: usize,
}

/// The windows of length `size` of the slice.
pub fn windows<'a, T>(v: &'a [T], size: usize) -> (r: Windows<'a, T>)
    requires
        size >= 1,
    ensures
        r.v == v && r.size == size && r.pos == 0,
{
    Windows { v, size, pos: 0 }
}

impl<'a, T> Windows<'a, T> {
    /// The next window: `size` elements starting at the cursor, while that
    /// many remain.
    pub fn next(&mut self) -> (r: Option<&'a [T]>)
        requires
            old(self).size >= 1,
        ensures
            final(self).v == old(self).v && final(self).size == old(self).size,
            match r {
                Some(w) => {
                    &&& old(self).pos + old(self).size <= old(self).v@.len()
                    &&& w@ == old(self).v@.subrange(
                        old(self).pos as int,
                        old(self).pos + old(self).size,
                    )
                    &&& final(self).pos == old(self).pos + 1
                },
                None => {
                    &&& old(self).pos + old(self).size > old(self).v@.len()
                    &&& final(self).pos == old(self).pos
                },
            },
    {
        if self.pos <= self.v.len() && self.v.len() - self.pos >= self.size {
            let w = &self.v[self.pos..self.pos + self.size];
            self.pos = self.pos + 1;
            Some(w)
        } else {
            None
        }
    }
}

impl<'a, T> Windows<'a, T> {
    /// How many windows remain.
    pub fn count(&self) -> (r: usize)
        requires
            self.size >= 1,
            self.pos <= self.v@.len(),
        ensures
            r == (if self.pos + self.size <= self.v@.len() {
                self.v@.len() - self.pos - self.size + 1
            } else {
                0int
            }),
    {
        if self.v.len() - self.pos >= self.size {
            self.v.len() - self.pos - self.size + 1
        } else {
            0
        }
    }

    /// Skips `n` windows, then yields the next one; exhausts the iterator
    /// where fewer than `n + 1` remain.
    pub fn nth(&mut self, n: usize) -> (r: Option<&'a [T]>)
        requires
            old(self).size >= 1,
            old(self).pos <= old(self).v@.len(),
        ensures
            final(self).v == old(self).v && final(self).size == old(self).size,
            final(self).pos <= final(self).v@.len(),
            match r {
                Some(w) => {
                    &&& old(self).pos + n + old(self).size <= old(self).v@.len()
                    &&& w@ == old(self).v@.subrange(
                        old(self).pos + n,
                        old(self).pos + n + old(self).size,
                    )
                    &&& final(self).pos == old(self).pos + n + 1
                },
                None => {
                    &&& old(self).pos + n + old(self).size > old(self).v@.len()
                    &&& final(self).pos == old(self).v@.len()
                },
            },
    {
        let rem = self.v.len() - self.pos;
        if rem >= self.size && n <= rem - self.size {
            let start = self.pos + n;
            let w = &self.v[start..start + self.size];
            self.pos = start + 1;
            Some(w)
        } else {
            self.pos = self.v.len();
            None
        }
    }

    /// The last window of the slice, where any window remains.
    pub fn last(self) -> (r: Option<&'a [T]>)
        requires
            self.size >= 1,
            self.pos <= self.v@.len(),
        ensures
            match r {
                Some(w) => {
                    &&& self.pos + self.size <= self.v@.len()
                    &&& w@ == self.v@.subrange(
                        self.v@.len() - self.size,
                        self.v@.len() as int,
                    )
                },
                None => self.pos + self.size > self.v@.len(),
            },
    {
        if self.v.len() - self.pos >= self.size {
            let start = self.v.len() - self.size;
            Some(&self.v[start..self.v.len()])
        } else {
            None
        }
    }
}

/// An iterator over non-overlapping chunks of length `size`, front to back;
/// the last chunk may be shorter.
pub struct Chunks<'a, T> {
    /// The slice looked into.
    pub v: &'a [T],
    /// The chunk length; at least one.
    pub size: usize,
    /// Where the next chunk starts.
    pub pos: usize,
}

/// The chunks of length `size` of the slice.
pub fn chunks<'a, T>(v: &'a [T], size: usize) -> (r: Chunks<'a, T>)
    requires
        size >= 1,
    ensures
        r.v == v && r.size == size && r.pos == 0,
{
    Chunks { v, size, pos: 0 }
}

impl<'a, T> Chunks<'a, T> {
    /// The next chunk: up to `size` elements starting at the cursor, while
    /// any remain.
    pub fn next(&mut self) -> (r: Option<&'a [T]>)
        requires
            old(self).size >= 1,
            old(self).pos <= old(self).v@.len(),
        ensures
            final(self).v == old(self).v && final(self).size == old(self).size,
            final(self).pos <= final(self).v@.len(),
            match r {
                Some(c) => {
                    &&& old(self).pos < old(self).v@.len()
                    &&& final(self).pos == (if old(self).pos + old(self).size
                        <= old(self).v@.len() {
                        old(self).pos + old(self).size
                    } else {
                        old(self).v@.len() as int
                    })
                    &&& c@ == old(self).v@.subrange(old(self).pos as int, final(self).pos as int)
                },
                None => old(self).pos == old(self).v@.len() && final(self).pos == old(self).pos,
            },
    {
        if self.pos < self.v.len() {
            let end = if self.v.len() - self.pos >= self.size {
                self.pos + self.size
            } else {
                self.v.len()
            };
            let c = &self.v[self.pos..end];
            self.pos = end;
            Some(c)
        } else {
            None
        }
    }
}


/// An iterator over the pieces of a slice separated by elements matching a
/// predicate: each piece holds no matching element, matching elements are
/// consumed as separators, and the piece after the last separator (possibly
/// empty) closes the sequence.
pub struct Split<'a, T, P> {
    /// The slice looked into.
    pub v: &'a [T],
    /// The separator predicate.
    pub pred: P,
    /// Where the next piece starts.
    pub pos: usize,
    /// Whether the closing piece has been yielded.
    pub finished: bool,
}

/// The pieces of `v` separated by elements on which `pred` holds.
pub fn split<'a, T, P: Fn(&T) -> bool>(v: &'a [T], pred: P) -> (r: Split<'a, T, P>)
    ensures
        r.v == v && r.pred == pred && r.pos == 0 && !r.finished,
{
    Split { v, pred, pos: 0, finished: false }
}

impl<'a, T, P: Fn(&T) -> bool> Split<'a, T, P> {
    /// The next piece: the elements from the cursor up to the next separator
    /// (the predicate returned false on each of them), or up to the end when
    /// no separator remains, which closes the iteration.
    pub fn next(&mut self) -> (r: Option<&'a [T]>)
        requires
            old(self).pos <= old(self).v@.len(),
            forall|j: int|
                0 <= j < old(self).v@.len() ==> call_requires(
                    old(self).pred,
                    (&old(self).v@[j],),
                ),
        ensures
            final(self).v == old(self).v && final(self).pred == old(self).pred,
            final(self).pos <= final(self).v@.len(),
            match r {
                Some(piece) => {
                    &&& !old(self).finished
                    &&& if final(self).finished {
                        &&& final(self).pos == old(self).pos
                        &&& piece@ == old(self).v@.subrange(
                            old(self).pos as int,
                            old(self).v@.len() as int,
                        )
                        &&& forall|j: int|
                            old(self).pos <= j < old(self).v@.len() ==> call_ensures(
                                old(self).pred,
                                (&old(self).v@[j],),
                                false,
                            )
                    } else {
                        &&& old(self).pos < final(self).pos <= old(self).v@.len()
                        &&& piece@ == old(self).v@.subrange(
                            old(self).pos as int,
                            final(self).pos - 1,
                        )
                        &&& call_ensures(
                            old(self).pred,
                            (&old(self).v@[final(self).pos - 1],),
                            true,
                        )
                        &&& forall|j: int|
                            old(self).pos <= j < final(self).pos - 1 ==> call_ensures(
                                old(self).pred,
                                (&old(self).v@[j],),
                                false,
                            )
                    }
                },
                None => {
                    &&& old(self).finished
                    &&& final(self).pos == old(self).pos
                    &&& final(self).finished
                },
            },
    {
        if self.finished {
            return None;
        }
        let start = self.pos;
        let mut k = start;
        while k < self.v.len()
            invariant
                start <= k <= self.v@.len(),
                self == old(self),
                !old(self).finished,
                start == old(self).pos,
                forall|j: int|
                    0 <= j < self.v@.len() ==> call_requires(self.pred, (&self.v@[j],)),
                forall|j: int|
                    start <= j < k ==> call_ensures(self.pred, (&self.v@[j],), false),
            decreases self.v@.len() - k,
        {
            if (self.pred)(&self.v[k]) {
                let piece = &self.v[start..k];
                self.pos = k + 1;
                proof {
                    assert(piece@ =~= old(self).v@.subrange(start as int, k as int));
                }
                return Some(piece);
            }
            k = k + 1;
        }
        let piece = &self.v[start..self.v.len()];
        self.finished = true;
        proof {
            assert(piece@ =~= old(self).v@.subrange(start as int, old(self).v@.len() as int));
        }
        Some(piece)
    }

    /// Closes the iteration early: yields everything from the cursor to the
    /// end as one piece, unsplit, unless the iteration is already closed.
    pub fn finish(&mut self) -> (r: Option<&'a [T]>)
        requires
            old(self).pos <= old(self).v@.len(),
        ensures
            final(self).v == old(self).v && final(self).pred == old(self).pred,
            final(self).pos == old(self).pos,
            final(self).finished,
            match r {
                Some(piece) => {
                    &&& !old(self).finished
                    &&& piece@ == old(self).v@.subrange(
                        old(self).pos as int,
                        old(self).v@.len() as int,
                    )
                },
                None => old(self).finished,
            },
    {
        if self.finished {
            None
        } else {
            self.finished = true;
            let piece = &self.v[self.pos..self.v.len()];
            proof {
                assert(piece@ =~= old(self).v@.subrange(
                    old(self).pos as int,
                    old(self).v@.len() as int,
                ));
            }
            Some(piece)
        }
    }
}

/// An iterator like `Split`, limited to at most `count` pieces: the last
/// piece it may yield is the unsplit remainder.
pub struct SplitN<'a, T, P> {
    /// The underlying unlimited split.
    pub inner: Split<'a, T, P>,
    /// How many pieces may still be yielded.
    pub count: usize,
}

/// At most `count` pieces of `v` separated by elements on which `pred`
/// holds; the last piece is the unsplit remainder.
pub fn splitn<'a, T, P: Fn(&T) -> bool>(v: &'a [T], count: usize, pred: P) -> (r: SplitN<
    'a,
    T,
    P,
>)
    ensures
        r.inner.v == v && r.inner.pred == pred && r.inner.pos == 0 && !r.inner.finished,
        r.count == count,
{
    SplitN { inner: split(v, pred), count }
}

impl<'a, T, P: Fn(&T) -> bool> SplitN<'a, T, P> {
    /// The next piece: while more than one piece may still come, the
    /// underlying split's next piece; for the last allowed piece, the
    /// unsplit remainder; afterwards nothing.
    pub fn next(&mut self) -> (r: Option<&'a [T]>)
        requires
            old(self).inner.pos <= old(self).inner.v@.len(),
            forall|j: int|
                0 <= j < old(self).inner.v@.len() ==> call_requires(
                    old(self).inner.pred,
                    (&old(self).inner.v@[j],),
                ),
        ensures
            final(self).inner.v == old(self).inner.v && final(self).inner.pred == old(
                self,
            ).inner.pred,
            final(self).inner.pos <= final(self).inner.v@.len(),
            old(self).count == 0 ==> (r is None && *final(self) == *old(self)),
            old(self).count == 1 ==> {
                &&& final(self).count == 0
                &&& final(self).inner.finished
                &&& match r {
                    Some(piece) => {
                        &&& !old(self).inner.finished
                        &&& piece@ == old(self).inner.v@.subrange(
                            old(self).inner.pos as int,
                            old(self).inner.v@.len() as int,
                        )
                    },
                    None => old(self).inner.finished,
                }
            },
            old(self).count > 1 ==> {
                &&& final(self).count == old(self).count - 1
                &&& match r {
                    Some(piece) => {
                        &&& !old(self).inner.finished
                        &&& if final(self).inner.finished {
                            &&& final(self).inner.pos == old(self).inner.pos
                            &&& piece@ == old(self).inner.v@.subrange(
                                old(self).inner.pos as int,
                                old(self).inner.v@.len() as int,
                            )
                        } else {
                            &&& old(self).inner.pos < final(self).inner.pos <= old(
                                self,
                            ).inner.v@.len()
                            &&& piece@ == old(self).inner.v@.subrange(
                                old(self).inner.pos as int,
                                final(self).inner.pos - 1,
                            )
                        }
                    },
                    None => old(self).inner.finished,
                }
            },
    {
        if self.count == 0 {
            None
        } else if self.count == 1 {
            self.count = 0;
            self.inner.finish()
        } else {
            self.count = self.count - 1;
            self.inner.next()
        }
    }
}


/// Where an ordering answer stands on the line from `Less` to `Greater`.
pub open spec fn ord_rank(o: core::cmp::Ordering) -> int {
    match o {
        core::cmp::Ordering::Less => 0,
        core::cmp::Ordering::Equal => 1,
        core::cmp::Ordering::Greater => 2,
    }
}

/// Binary search with a caller-supplied comparator, over a slice on which
/// the comparator is sorted: along the slice its possible answers never step
/// back from `Equal` to `Less`, nor from `Greater` downwards. On success the
/// returned index is one the comparator called `Equal`; on failure it is the
/// insertion point: the comparator answers only `Less` below it and only
/// `Greater` from it on.
pub fn binary_search_by<T, F: Fn(&T) -> core::cmp::Ordering>(v: &[T], f: F) -> (r: Result<
    usize,
    usize,
>)
    requires
        forall|j: int| 0 <= j < v@.len() ==> call_requires(f, (&v@[j],)),
        forall|i: int, j: int, r1: core::cmp::Ordering, r2: core::cmp::Ordering|
            0 <= i <= j < v@.len() && call_ensures(f, (&v@[i],), r1) && call_ensures(
                f,
                (&v@[j],),
                r2,
            ) ==> ord_rank(r1) <= ord_rank(r2),
    ensures
        match r {
            Ok(i) => i < v@.len() && call_ensures(f, (&v@[i as int],), core::cmp::Ordering::Equal),
            Err(i) => {
                &&& i <= v@.len()
                &&& forall|j: int, o: core::cmp::Ordering|
                    0 <= j < i && call_ensures(f, (&v@[j],), o) ==> o is Less
                &&& forall|j: int, o: core::cmp::Ordering|
                    i <= j < v@.len() && call_ensures(f, (&v@[j],), o) ==> o is Greater
            },
        },
{
    let mut lo: usize = 0;
    let mut hi: usize = v.len();
    while lo < hi
        invariant
            lo <= hi <= v@.len(),
            forall|j: int| 0 <= j < v@.len() ==> call_requires(f, (&v@[j],)),
            forall|i: int, j: int, r1: core::cmp::Ordering, r2: core::cmp::Ordering|
                0 <= i <= j < v@.len() && call_ensures(f, (&v@[i],), r1) && call_ensures(
                    f,
                    (&v@[j],),
                    r2,
                ) ==> ord_rank(r1) <= ord_rank(r2),
            forall|j: int, o: core::cmp::Ordering|
                0 <= j < lo && call_ensures(f, (&v@[j],), o) ==> o is Less,
            forall|j: int, o: core::cmp::Ordering|
                hi <= j < v@.len() && call_ensures(f, (&v@[j],), o) ==> o is Greater,
        decreases hi - lo,
    {
        let mid = lo + (hi - lo) / 2;
        match f(&v[mid]) {
            core::cmp::Ordering::Equal => {
                return Ok(mid);
            },
            core::cmp::Ordering::Less => {
                proof {
                    assert forall|j: int, o: core::cmp::Ordering|
                        0 <= j < mid + 1 && call_ensures(f, (&v@[j],), o) implies o is Less by {
                        assert(call_ensures(f, (&v@[mid as int],), core::cmp::Ordering::Less));
                    }
                }
                lo = mid + 1;
            },
            core::cmp::Ordering::Greater => {
                proof {
                    assert forall|j: int, o: core::cmp::Ordering|
                        mid <= j < v@.len() && call_ensures(f, (&v@[j],), o) implies o
                        is Greater by {
                        assert(call_ensures(f, (&v@[mid as int],), core::cmp::Ordering::Greater));
                    }
                }
                hi = mid;
            },
        }
    }
    Err(lo)
}


impl<'a, T> Chunks<'a, T> {
    /// How many chunks remain: the remaining elements divided by the chunk
    /// length, rounded up.
    pub fn count(&self) -> (r: usize)
        requires
            self.size >= 1,
            self.pos <= self.v@.len(),
        ensures
            r == (if self.pos == self.v@.len() {
                0int
            } else {
                (self.v@.len() - self.pos - 1) as int / self.size as int + 1
            }),
    {
        let rem = self.v.len() - self.pos;
        if rem == 0 {
            0
        } else {
            (rem - 1) / self.size + 1
        }
    }

    /// The last chunk of the slice, where any element remains past the
    /// cursor.
    pub fn last(self) -> (r: Option<&'a [T]>)
        requires
            self.size >= 1,
            self.pos <= self.v@.len(),
        ensures
            match r {
                Some(c) => {
                    &&& self.pos < self.v@.len()
                    &&& c@ == self.v@.subrange(
                        self.v@.len() - ((self.v@.len() - self.pos - 1) % self.size as int + 1),
                        self.v@.len() as int,
                    )
                },
                None => self.pos == self.v@.len(),
            },
    {
        if self.pos < self.v.len() {
            let rem = self.v.len() - self.pos;
            let tail_len = (rem - 1) % self.size + 1;
            proof {
                vstd::arithmetic::div_mod::lemma_mod_decreases((rem - 1) as nat, self.size as nat);
            }
            Some(&self.v[self.v.len() - tail_len..self.v.len()])
        } else {
            None
        }
    }
}


/// An iterator over the pieces of a slice separated by elements matching a
/// predicate, taken from the back, limited to at most `count` pieces: the
/// last piece it may yield is the unsplit front remainder.
pub struct RSplitN<'a, T, P> {
    /// The slice looked into.
    pub v: &'a [T],
    /// The separator predicate.
    pub pred: P,
    /// Where the unscanned front part ends (exclusive).
    pub end: usize,
    /// Whether the closing piece has been yielded.
    pub finished: bool,
    /// How many pieces may still be yielded.
    pub count: usize,
}

/// At most `count` pieces of `v` separated by elements on which `pred`
/// holds, taken back to front; the last piece is the unsplit remainder.
pub fn rsplitn<'a, T, P: Fn(&T) -> bool>(v: &'a [T], count: usize, pred: P) -> (r: RSplitN<
    'a,
    T,
    P,
>)
    ensures
        r.v == v && r.pred == pred && r.end == v@.len() && !r.finished && r.count == count,
{
    let end = v.len();
    RSplitN { v, pred, end, finished: false, count }
}

impl<'a, T, P: Fn(&T) -> bool> RSplitN<'a, T, P> {
    /// The next piece from the back: the elements after the last remaining
    /// separator (the predicate returned false on each of them); for the
    /// last allowed piece, or where no separator remains, the unscanned
    /// front as it stands.
    pub fn next(&mut self) -> (r: Option<&'a [T]>)
        requires
            old(self).end <= old(self).v@.len(),
            forall|j: int|
                0 <= j < old(self).v@.len() ==> call_requires(
                    old(self).pred,
                    (&old(self).v@[j],),
                ),
        ensures
            final(self).v == old(self).v && final(self).pred == old(self).pred,
            final(self).end <= old(self).end,
            old(self).count == 0 ==> (r is None && *final(self) == *old(self)),
            old(self).count > 0 ==> final(self).count == old(self).count - 1,
            old(self).count > 0 ==> match r {
                Some(piece) => {
                    &&& !old(self).finished
                    &&& if final(self).finished {
                        &&& piece@ == old(self).v@.subrange(0, old(self).end as int)
                        &&& final(self).end == old(self).end
                        &&& (old(self).count > 1 ==> forall|j: int|
                            0 <= j < old(self).end ==> call_ensures(
                                old(self).pred,
                                (&old(self).v@[j],),
                                false,
                            ))
                    } else {
                        &&& old(self).count > 1
                        &&& final(self).end < old(self).end
                        &&& piece@ == old(self).v@.subrange(
                            final(self).end + 1,
                            old(self).end as int,
                        )
                        &&& call_ensures(old(self).pred, (&old(self).v@[final(self).end as int],), true)
                        &&& forall|j: int|
                            final(self).end < j < old(self).end ==> call_ensures(
                                old(self).pred,
                                (&old(self).v@[j],),
                                false,
                            )
                    }
                },
                None => old(self).finished,
            },
    {
        if self.count == 0 {
            return None;
        }
        self.count = self.count - 1;
        if self.finished {
            return None;
        }
        let limit = self.end;
        if self.count == 0 {
            self.finished = true;
            let piece = &self.v[0..limit];
            proof {
                assert(piece@ =~= old(self).v@.subrange(0, old(self).end as int));
            }
            return Some(piece);
        }
        let mut k = limit;
        while k > 0
            invariant
                k <= limit,
                limit == old(self).end,
                self.v == old(self).v && self.pred == old(self).pred,
                self.end == old(self).end,
                self.count == old(self).count - 1,
                old(self).count > 1,
                !self.finished,
                !old(self).finished,
                limit <= self.v@.len(),
                forall|j: int|
                    0 <= j < self.v@.len() ==> call_requires(self.pred, (&self.v@[j],)),
                forall|j: int|
                    k <= j < limit ==> call_ensures(self.pred, (&self.v@[j],), false),
            decreases k,
        {
            if (self.pred)(&self.v[k - 1]) {
                let piece = &self.v[k..limit];
                self.end = k - 1;
                proof {
                    assert(piece@ =~= old(self).v@.subrange(k as int, limit as int));
                }
                return Some(piece);
            }
            k = k - 1;
        }
        self.finished = true;
        let piece = &self.v[0..limit];
        proof {
            assert(piece@ =~= old(self).v@.subrange(0, old(self).end as int));
        }
        Some(piece)
    }
}

} // verus!
