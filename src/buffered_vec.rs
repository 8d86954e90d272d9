use vstd::prelude::*;

use vstd::arithmetic::div_mod::{
    lemma_fundamental_div_mod, lemma_fundamental_div_mod_converse, lemma_mod_bound,
};

use crate::bunch::Bunch;

verus! {

/// The elements of a list of chunks, laid end to end.
pub open spec fn joined<T>(s: Seq<Seq<T>>) -> Seq<T>
    decreases s.len(),
{
    if s.len() == 0 {
        Seq::empty()
    } else {
        joined(s.drop_last()) + s.last()
    }
}

/// Chunks from `n` on that are empty add nothing.
proof fn lemma_joined_empty_tail<T>(s: Seq<Seq<T>>, n: int)
    requires
        0 <= n <= s.len(),
        forall|k: int| n <= k < s.len() ==> #[trigger] s[k].len() == 0,
    ensures
        joined(s) == joined(s.take(n)),
    decreases s.len(),
{
    if s.len() > n {
        lemma_joined_empty_tail(s.drop_last(), n);
        assert(s.drop_last().take(n) =~= s.take(n));
        assert(s.last() =~= Seq::<T>::empty());
        assert(joined(s) =~= joined(s.drop_last()));
    } else {
        assert(s.take(n) =~= s);
    }
}

/// Joining the first `n + 1` chunks is joining the first `n`, then chunk `n`.
proof fn lemma_joined_take_succ<T>(s: Seq<Seq<T>>, n: int)
    requires
        0 <= n < s.len(),
    ensures
        joined(s.take(n + 1)) == joined(s.take(n)) + s[n],
{
    assert(s.take(n + 1).drop_last() =~= s.take(n));
}

/// An index below `n * m` falls in one of the first `n` blocks of `m`.
proof fn lemma_div_below(i: int, m: int, n: int)
    requires
        m > 0,
        0 <= i < n * m,
    ensures
        0 <= i / m < n,
        0 <= i % m < m,
{
    lemma_fundamental_div_mod(i, m);
    lemma_mod_bound(i, m);
    let q = i / m;
    assert(0 <= q < n) by (nonlinear_arith)
        requires
            i == m * q + i % m,
            0 <= i % m < m,
            0 <= i < n * m,
            m > 0,
    ;
}

/// When every chunk holds exactly `m` elements, element `i` of the join
/// lies in chunk `i / m` at offset `i % m`.
proof fn lemma_joined_full<T>(s: Seq<Seq<T>>, m: int)
    requires
        m > 0,
        forall|k: int| 0 <= k < s.len() ==> #[trigger] s[k].len() == m,
    ensures
        joined(s).len() == s.len() * m,
        forall|i: int|
            0 <= i < s.len() * m ==> #[trigger] joined(s)[i] == s[i / m][i % m],
    decreases s.len(),
{
    if s.len() > 0 {
        let n = s.len() - 1;
        lemma_joined_full(s.drop_last(), m);
        assert(n * m + m == s.len() * m) by (nonlinear_arith)
            requires
                n == s.len() - 1,
        ;
        assert forall|i: int| 0 <= i < s.len() * m implies #[trigger] joined(s)[i] == s[i / m][i
            % m] by {
            if i >= n * m {
                lemma_fundamental_div_mod_converse(i, m, n, i - n * m);
            } else {
                lemma_div_below(i, m, n);
                assert(joined(s) == joined(s.drop_last()) + s.last());
            }
        }
    }
}

/// A join of chunks of at most `m` elements each holds at most
/// `s.len() * m` elements.
proof fn lemma_joined_len_bound<T>(s: Seq<Seq<T>>, m: int)
    requires
        m >= 0,
        forall|k: int| 0 <= k < s.len() ==> #[trigger] s[k].len() <= m,
    ensures
        joined(s).len() <= s.len() * m,
    decreases s.len(),
{
    if s.len() > 0 {
        lemma_joined_len_bound(s.drop_last(), m);
        assert((s.len() - 1) * m + m == s.len() * m) by (nonlinear_arith);
    }
}

/// A growable sequence kept in equal-sized chunks plus a staging buffer
/// that takes the newest elements.
#[derive(Debug)]
pub struct BufferedVec<T> {
    parts: Vec<Bunch<T>>,
    buffer: Bunch<T>,
    max_buffer_size: usize,
    len: usize,
    last_non_empty: usize,
}

impl<T: Copy> View for BufferedVec<T> {
    type V = Seq<T>;

    /// The chunks' elements in chunk order, then the buffer's.
    closed spec fn view(&self) -> Seq<T> {
        joined(self.chunks()) + self.staged()
    }
}

impl<T: Copy> BufferedVec<T> {
    /// The live elements of each chunk, in chunk order.
    pub closed spec fn chunks(&self) -> Seq<Seq<T>> {
        self.parts@.map_values(|b: Bunch<T>| b@)
    }

    /// The live elements of the staging buffer.
    pub closed spec fn staged(&self) -> Seq<T> {
        self.buffer@
    }

    /// The capacity of the buffer and of every chunk.
    pub closed spec fn buffer_size(&self) -> nat {
        self.max_buffer_size as nat
    }

    /// The index of the rightmost chunk that may hold elements.
    pub closed spec fn frontier(&self) -> nat {
        self.last_non_empty as nat
    }

    /// Every chunk before the frontier is full, every chunk after it is
    /// empty, and the frontier chunk is empty only at index 0.
    pub open spec fn packed(&self) -> bool {
        &&& self.chunks().len() == 0 ==> self.frontier() == 0
        &&& self.chunks().len() > 0 ==> self.frontier() < self.chunks().len()
        &&& forall|k: int|
            0 <= k < self.frontier() ==> #[trigger] self.chunks()[k].len() == self.buffer_size()
        &&& forall|k: int|
            self.frontier() < k < self.chunks().len() ==> #[trigger] self.chunks()[k].len() == 0
        &&& self.frontier() > 0 ==> self.chunks()[self.frontier() as int].len() > 0
    }

    pub closed spec fn wf(&self) -> bool {
        &&& self.buffer.wf()
        &&& self.buffer.cap() == self.max_buffer_size
        &&& forall|k: int|
            0 <= k < self.parts@.len() ==> (#[trigger] self.parts@[k]).wf() && self.parts@[k].cap()
                == self.max_buffer_size
        &&& self.packed()
        &&& self.len == self@.len()
        &&& self.parts@.len() * self.max_buffer_size + self.max_buffer_size <= usize::MAX
    }

    /// The elements that the allocated chunks and the buffer can hold.
    pub open spec fn spec_capacity(&self) -> nat {
        (self.chunks().len() + 1) * self.buffer_size()
    }

    pub fn new(buffer_size: usize) -> (r: BufferedVec<T>)
        ensures
            r.wf(),
            r@ == Seq::<T>::empty(),
            r.buffer_size() == buffer_size,
            r.chunks() == Seq::<Seq<T>>::empty(),
    {
        let r = BufferedVec {
            parts: Vec::new(),
            buffer: Bunch::new(buffer_size),
            max_buffer_size: buffer_size,
            len: 0,
            last_non_empty: 0,
        };
        assert(r.chunks() =~= Seq::<Seq<T>>::empty());
        assert(r@ =~= Seq::<T>::empty());
        r
    }

    /// Like `new`, with room reserved in the chunk list for enough chunks
    /// to hold `capacity` elements.
    pub fn with_capacity(buffer_size: usize, capacity: usize) -> (r: BufferedVec<T>)
        requires
            buffer_size > 0,
        ensures
            r.wf(),
            r@ == Seq::<T>::empty(),
            r.buffer_size() == buffer_size,
            r.chunks() == Seq::<Seq<T>>::empty(),
    {
        let mut parts_capacity = capacity / buffer_size;
        if capacity % buffer_size != 0 {
            proof {
                let (c, b) = (capacity as int, buffer_size as int);
                lemma_fundamental_div_mod(c, b);
                lemma_mod_bound(c, b);
                assert(c / b < usize::MAX) by (nonlinear_arith)
                    requires
                        c == b * (c / b) + c % b,
                        0 < c % b < b,
                        c <= usize::MAX,
                ;
            }
            parts_capacity += 1;
        }
        let r = BufferedVec {
            parts: Vec::with_capacity(parts_capacity),
            buffer: Bunch::new(buffer_size),
            max_buffer_size: buffer_size,
            len: 0,
            last_non_empty: 0,
        };
        assert(r.chunks() =~= Seq::<Seq<T>>::empty());
        assert(r@ =~= Seq::<T>::empty());
        r
    }

    pub fn len(&self) -> (r: usize)
        requires
            self.wf(),
        ensures
            r == self@.len(),
    {
        self.len
    }

    /// The elements that the allocated chunks and the buffer can hold.
    pub fn capacity(&self) -> (r: usize)
        requires
            self.wf(),
        ensures
            r == self.spec_capacity(),
    {
        assert(self.parts@.len() * self.max_buffer_size + self.max_buffer_size == (
        self.chunks().len() + 1) * self.buffer_size()) by (nonlinear_arith)
            requires
                self.parts@.len() == self.chunks().len(),
                self.max_buffer_size == self.buffer_size(),
        ;
        (self.parts.len() * self.max_buffer_size) + self.max_buffer_size
    }

    /// The chunks after the frontier add nothing to the sequence.
    proof fn lemma_view_split(&self)
        requires
            self.wf(),
            self.chunks().len() > 0,
        ensures
            joined(self.chunks()) == joined(self.chunks().take(self.frontier() as int))
                + self.chunks()[self.frontier() as int],
    {
        let s = self.chunks();
        let f = self.frontier() as int;
        lemma_joined_empty_tail(s, f + 1);
        lemma_joined_take_succ(s, f);
    }

    /// The sequence never holds more than the allocated capacity.
    proof fn lemma_len_bound(&self)
        requires
            self.wf(),
        ensures
            self@.len() <= self.spec_capacity(),
    {
        let s = self.chunks();
        let m = self.buffer_size() as int;
        assert forall|k: int| 0 <= k < s.len() implies #[trigger] s[k].len() <= m by {
            assert(self.parts@[k].wf());
        }
        lemma_joined_len_bound(s, m);
        assert(s.len() * m + m == (s.len() + 1) * m) by (nonlinear_arith);
    }

    fn add_new_bunch(&mut self)
        ensures
            final(self).parts@ == old(self).parts@.push(final(self).parts@.last()),
            final(self).parts@.last()@ == Seq::<T>::empty(),
            final(self).parts@.last().cap() == old(self).max_buffer_size,
            final(self).buffer == old(self).buffer,
            final(self).max_buffer_size == old(self).max_buffer_size,
            final(self).len == old(self).len,
            final(self).last_non_empty == old(self).last_non_empty,
    {
        self.parts.push(Bunch::new(self.max_buffer_size));
    }

    /// Moves the whole buffer into the chunk list, filling the frontier
    /// chunk and spilling the rest into the chunk after it.
    fn flush_buffer(&mut self)
        requires
            old(self).wf(),
            old(self).buffer_size() > 0,
            old(self).staged().len() == old(self).buffer_size(),
            old(self).spec_capacity() + old(self).buffer_size() <= usize::MAX,
        ensures
            final(self).wf(),
            final(self)@ == old(self)@,
            final(self).staged() == Seq::<T>::empty(),
            final(self).buffer_size() == old(self).buffer_size(),
            final(self).chunks().len() <= old(self).chunks().len() + 1,
    {
        let ghost old_view = self@;
        if self.buffer.filled() == 0 {
            return;
        }
        if self.parts.len() == 0 {
            self.add_new_bunch();
        }
        let lne = self.last_non_empty;
        let mbs = self.max_buffer_size;
        let ghost s0 = self.chunks();
        let ghost buf = self.buffer@;
        let ghost n0 = self.parts@.len();
        proof {
            let (p0, p1) = (old(self).parts@.len() as int, self.parts@.len() as int);
            assert(p1 * mbs + mbs <= usize::MAX) by (nonlinear_arith)
                requires
                    p1 <= p0 + 1,
                    (p0 + 1) * mbs + mbs <= usize::MAX,
            ;
            assert forall|k: int| 0 <= k < n0 implies #[trigger] s0[k] == self.parts@[k]@ by {}
            assert(lne < n0);
            assert forall|k: int| lne < k < n0 implies #[trigger] self.parts@[k]@.len() == 0 by {
                assert(s0[k] == old(self).chunks()[k]);
            }
            assert forall|k: int| 0 <= k < lne implies #[trigger] self.parts@[k]@.len() == mbs by {
                assert(s0[k] == old(self).chunks()[k]);
            }
            lemma_joined_empty_tail(s0, lne + 1);
            lemma_joined_take_succ(s0, lne as int);
            assert(self.parts@[lne as int].wf());
            assert(joined(s0) + buf == old_view);
        }
        if self.parts[lne].filled() > 0 {
            if self.parts.len() - 1 == lne {
                self.add_new_bunch();
            }
            let ghost s1 = self.chunks();
            proof {
                assert(self.parts@[lne + 1]@.len() == 0);
                assert(self.parts@[lne + 1].wf());
            }
            let sep = mbs - self.parts[lne].filled();
            let (head, tail) = self.buffer.live().split_at(sep);
            self.parts[lne].append_unchecked(head);
            self.parts[lne + 1].append_unchecked(tail);
            self.last_non_empty = lne + 1;
            proof {
                let s2 = self.chunks();
                assert(head@ + tail@ =~= buf);
                assert(s2.len() == s1.len());
                assert(s2.take(lne as int) =~= s0.take(lne as int));
                assert forall|k: int| lne + 1 < k < s2.len() implies #[trigger] s2[k].len() == 0 by {
                    assert(s2[k] == s1[k]);
                }
                lemma_joined_empty_tail(s2, lne + 2);
                lemma_joined_take_succ(s2, lne + 1);
                lemma_joined_take_succ(s2, lne as int);
                assert(joined(s2) =~= joined(s0) + buf);
            }
        } else {
            self.parts[lne].append_unchecked(self.buffer.live());
            proof {
                let s2 = self.chunks();
                assert(s2 =~= s0.update(lne as int, buf));
                assert(s2.take(lne as int) =~= s0.take(lne as int));
                lemma_joined_empty_tail(s2, lne + 1);
                lemma_joined_take_succ(s2, lne as int);
                assert(joined(s2) =~= joined(s0) + buf);
            }
        }
        self.buffer.erase();
        proof {
            assert(self@ =~= old_view);
        }
    }

    /// Appends `value` at the end, moving the buffer into the chunk list
    /// first when the buffer is full.
    pub fn push(&mut self, value: T)
        requires
            old(self).wf(),
            old(self).buffer_size() > 0,
            old(self).spec_capacity() + old(self).buffer_size() <= usize::MAX,
        ensures
            final(self).wf(),
            final(self)@ == old(self)@.push(value),
            final(self).buffer_size() == old(self).buffer_size(),
            final(self).chunks().len() <= old(self).chunks().len() + 1,
    {
        proof {
            self.lemma_len_bound();
        }
        if self.buffer.filled() == self.max_buffer_size {
            self.flush_buffer();
        }
        // After a flush the buffer has room, so this push succeeds.
        let _ = self.buffer.push(value);
        self.len = self.len + 1;
        proof {
            assert(self@ =~= old(self)@.push(value));
        }
    }

    /// Element `i` of the chunk region, the elements before the buffer, lies
    /// in chunk `i / buffer_size()` at offset `i % buffer_size()`.
    pub proof fn lemma_addressing(&self, i: int)
        requires
            self.wf(),
            0 <= i < self@.len() - self.staged().len(),
        ensures
            self.buffer_size() > 0,
            i / (self.buffer_size() as int) < self.chunks().len(),
            i % (self.buffer_size() as int) < self.chunks()[i / (self.buffer_size() as int)].len(),
            self@[i] == self.chunks()[i / (self.buffer_size() as int)][i % (
            self.buffer_size() as int)],
    {
        let s = self.chunks();
        let m = self.buffer_size() as int;
        let f = self.frontier() as int;
        assert forall|k: int| 0 <= k < s.len() implies #[trigger] s[k].len() <= m by {
            assert(self.parts@[k].wf());
        }
        if m == 0 {
            lemma_joined_len_bound(s, m);
        }
        if s.len() == 0 {
            assert(joined(s).len() == 0);
        }
        self.lemma_view_split();
        let t = s.take(f);
        lemma_joined_full(t, m);
        assert(self@[i] == joined(s)[i]);
        if i < f * m {
            lemma_div_below(i, m, f);
            assert(joined(s)[i] == joined(t)[i]);
        } else {
            lemma_fundamental_div_mod_converse(i, m, f, i - f * m);
        }
    }

    /// Takes the last element off, from the buffer while it holds any, else
    /// from the frontier chunk.
    pub fn pop(&mut self) -> (r: Option<T>)
        requires
            old(self).wf(),
        ensures
            final(self).wf(),
            final(self).buffer_size() == old(self).buffer_size(),
            final(self).chunks().len() == old(self).chunks().len(),
            old(self)@.len() == 0 ==> r == None::<T> && final(self)@ == old(self)@,
            old(self)@.len() > 0 ==> r == Some(old(self)@.last()) && final(self)@ == old(
                self,
            )@.drop_last(),
    {
        let ghost s0 = self.chunks();
        match self.buffer.pop() {
            Ok(v) => {
                self.len = self.len - 1;
                proof {
                    assert(self@ =~= old(self)@.drop_last());
                }
                return Some(v);
            },
            Err(_) => {},
        }
        if self.parts.len() == 0 {
            assert(old(self)@ =~= Seq::<T>::empty());
            return None;
        }
        let lne = self.last_non_empty;
        proof {
            old(self).lemma_view_split();
            assert(self.parts@[lne as int]@ == s0[lne as int]);
            assert(self.parts@[lne as int].wf());
        }
        if self.parts[lne].filled() == 0 {
            assert(old(self)@ =~= Seq::<T>::empty());
            return None;
        }
        let r = self.parts[lne].pop();
        self.len = self.len - 1;
        proof {
            let s1 = self.chunks();
            assert(s1 =~= s0.update(lne as int, s0[lne as int].drop_last()));
            assert(s1.take(lne as int) =~= s0.take(lne as int));
            lemma_joined_empty_tail(s1, lne + 1);
            lemma_joined_take_succ(s1, lne as int);
            assert(self@ =~= old(self)@.drop_last());
        }
        if self.parts[lne].filled() == 0 && lne != 0 {
            self.last_non_empty = lne - 1;
            proof {
                assert(s0[lne - 1].len() == self.max_buffer_size);
                assert(self.parts@[lne as int].wf());
            }
        }
        match r {
            Ok(v) => Some(v),
            Err(_) => None,
        }
    }

    /// The element at `index`, if there is one.
    pub fn get(&self, index: usize) -> (r: Option<T>)
        requires
            self.wf(),
        ensures
            index < self@.len() ==> r == Some(self@[index as int]),
            index >= self@.len() ==> r == None::<T>,
    {
        if index >= self.len {
            return None;
        }
        let chunk_region = self.len - self.buffer.filled();
        if index < chunk_region {
            proof {
                self.lemma_addressing(index as int);
            }
            let mbs = self.max_buffer_size;
            match self.parts[index / mbs].get(index % mbs) {
                Ok(v) => Some(v),
                Err(_) => None,
            }
        } else {
            match self.buffer.get(index - chunk_region) {
                Ok(v) => Some(v),
                Err(_) => None,
            }
        }
    }

    /// Empties the sequence; every chunk stays allocated for reuse.
    pub fn erase(&mut self)
        requires
            old(self).wf(),
        ensures
            final(self).wf(),
            final(self)@ == Seq::<T>::empty(),
            final(self).buffer_size() == old(self).buffer_size(),
            final(self).chunks().len() == old(self).chunks().len(),
    {
        let n = self.parts.len();
        let mut i: usize = 0;
        while i < n
            invariant
                i <= n,
                n == self.parts@.len(),
                self.buffer == old(self).buffer,
                self.max_buffer_size == old(self).max_buffer_size,
                old(self).wf(),
                n == old(self).parts@.len(),
                forall|k: int|
                    0 <= k < n ==> (#[trigger] self.parts@[k]).wf() && self.parts@[k].cap()
                        == self.max_buffer_size,
                forall|k: int| 0 <= k < i ==> (#[trigger] self.parts@[k])@.len() == 0,
            decreases n - i,
        {
            self.parts[i].erase();
            i = i + 1;
        }
        self.buffer.erase();
        self.len = 0;
        self.last_non_empty = 0;
        proof {
            let s = self.chunks();
            assert forall|k: int| 0 <= k < s.len() implies #[trigger] s[k].len() == 0 by {
                assert(s[k] == self.parts@[k]@);
            }
            lemma_joined_empty_tail(s, 0);
            assert(s.take(0) =~= Seq::<Seq<T>>::empty());
            assert(self@ =~= Seq::<T>::empty());
        }
    }

    /// Every chunk before the frontier is full, in any state that the
    /// constructors and the mutating methods leave behind.
    pub proof fn lemma_packed(&self)
        requires
            self.wf(),
        ensures
            self.packed(),
            forall|k: int|
                0 <= k < self.frontier() ==> #[trigger] self.chunks()[k].len()
                    == self.buffer_size(),
    {
    }
}

} // verus!
