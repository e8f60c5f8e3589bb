//! Walking a slice in consecutive chunks of a fixed size.

use vstd::prelude::*;
use vstd::slice::slice_subrange;

verus! {

/// A cursor that yields non-overlapping chunks from a slice, front to back.
/// Every chunk has the chosen size but the last, which holds what is left.
pub struct ChunkIter<'a, T> {
    data: &'a [T],
    chunk_size: usize,
    pos: usize,
}

/// The number of chunks of `chunk_size` values that `remaining` values make:
/// the full ones, and one more for a rest.
pub open spec fn chunk_count(remaining: nat, chunk_size: nat) -> nat
    recommends
        chunk_size > 0,
{
    remaining / chunk_size + if remaining % chunk_size == 0 {
        0nat
    } else {
        1nat
    }
}

/// The chunk count is the quotient of the two sizes, rounded up.
pub proof fn lemma_chunk_count_rounds_up(remaining: nat, chunk_size: nat)
    requires
        chunk_size > 0,
    ensures
        chunk_count(remaining, chunk_size) == (remaining + chunk_size - 1) / (chunk_size as int),
{
    let (r, c) = (remaining as int, chunk_size as int);
    let q = r / c;
    let m = r % c;
    assert(r == q * c + m && 0 <= m < c) by (nonlinear_arith)
        requires
            q == r / c,
            m == r % c,
            c > 0,
    ;
    if m == 0 {
        assert((q * c + c - 1) / c == q) by (nonlinear_arith)
            requires
                c > 0,
        ;
    } else {
        assert((q * c + m + c - 1) / c == q + 1) by (nonlinear_arith)
            requires
                c > 0,
                0 < m < c,
        ;
    }
}

impl<'a, T> ChunkIter<'a, T> {
    /// The values that the cursor walks over.
    pub closed spec fn data(&self) -> Seq<T> {
        self.data@
    }

    /// The size of every chunk but the last.
    pub closed spec fn chunk_size(&self) -> nat {
        self.chunk_size as nat
    }

    /// The position at which the next chunk starts.
    pub closed spec fn position(&self) -> nat {
        self.pos as nat
    }

    /// The chunk size is positive and the position lies within the data.
    pub closed spec fn wf(&self) -> bool {
        &&& self.chunk_size > 0
        &&& self.pos <= self.data@.len()
    }

    /// The position at which the chunk after the next starts.
    pub open spec fn next_position(&self) -> nat {
        if self.position() + self.chunk_size() <= self.data().len() {
            self.position() + self.chunk_size()
        } else {
            self.data().len()
        }
    }

    /// Creates a cursor at the start of `data`.
    pub fn new(data: &'a [T], chunk_size: usize) -> (it: Self)
        requires
            chunk_size > 0,
        ensures
            it.wf(),
            it.data() == data@,
            it.chunk_size() == chunk_size,
            it.position() == 0,
    {
        Self { data, chunk_size, pos: 0 }
    }

    /// Yields the next chunk and moves past it, or `None` once the data is
    /// used up.
    pub fn next(&mut self) -> (chunk: Option<&'a [T]>)
        requires
            old(self).wf(),
        ensures
            final(self).wf(),
            final(self).data() == old(self).data(),
            final(self).chunk_size() == old(self).chunk_size(),
            old(self).position() >= old(self).data().len() ==> {
                &&& chunk.is_none()
                &&& final(self).position() == old(self).position()
            },
            old(self).position() < old(self).data().len() ==> {
                &&& chunk.is_some()
                &&& chunk.unwrap()@ == old(self).data().subrange(
                    old(self).position() as int,
                    old(self).next_position() as int,
                )
                &&& final(self).position() == old(self).next_position()
            },
    {
        let len: usize = self.data.len();
        if self.pos >= len {
            return None;
        }
        let remaining: usize = len - self.pos;
        let take: usize = if self.chunk_size < remaining {
            self.chunk_size
        } else {
            remaining
        };
        let end: usize = self.pos + take;
        let chunk = slice_subrange(self.data, self.pos, end);
        self.pos = end;
        Some(chunk)
    }

    /// The number of chunks still to come, as both bounds of the hint.
    pub fn size_hint(&self) -> (hint: (usize, Option<usize>))
        requires
            self.wf(),
        ensures
            hint.0 == chunk_count((self.data().len() - self.position()) as nat, self.chunk_size()),
            hint.1 == Some(hint.0),
    {
        let remaining: usize = self.data.len() - self.pos;
        let full: usize = remaining / self.chunk_size;
        let chunks: usize = if remaining % self.chunk_size == 0 {
            full
        } else {
            proof {
                let (r, c) = (remaining as int, self.chunk_size as int);
                assert(r / c < r) by (nonlinear_arith)
                    requires
                        r >= 0,
                        c > 0,
                        r % c != 0,
                ;
            }
            full + 1
        };
        (chunks, Some(chunks))
    }
}

} // verus!
