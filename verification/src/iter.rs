//! Walking a chunked sequence from its first element to its last: chunk by
//! chunk, and element by element within a chunk.

use crate::chunkvec::chunks_of;
use crate::growth::lemma_capacity_doubles;
use crate::layout::{lemma_flatten_split, start_of, well_formed};
use vstd::prelude::*;

verus! {

/// What a cursor over `items` yields when it has passed `position` of them:
/// the element there, or nothing at the end.
pub open spec fn yield_at<T>(items: Seq<T>, position: nat) -> Option<T> {
    if position < items.len() {
        Some(items[position as int])
    } else {
        None
    }
}

/// Where the cursor stands after that: one further, or still at the end.
pub open spec fn step_from<T>(items: Seq<T>, position: nat) -> nat {
    if position < items.len() {
        position + 1
    } else {
        position
    }
}

/// All that the cursor yields, from `position` on, until it yields nothing.
pub open spec fn drained<T>(items: Seq<T>, position: nat) -> Seq<T>
    decreases items.len() - position,
{
    match yield_at(items, position) {
        Some(item) => seq![item] + drained(items, step_from(items, position)),
        None => Seq::empty(),
    }
}

/// Walking a cursor to its end yields every element from where it stood,
/// once and in order.
pub proof fn lemma_drained_from<T>(items: Seq<T>, position: nat)
    requires
        position <= items.len(),
    ensures
        drained(items, position) == items.skip(position as int),
    decreases items.len() - position,
{
    if position < items.len() {
        lemma_drained_from(items, position + 1);
        assert(seq![items[position as int]] + items.skip(position as int + 1) =~= items.skip(
            position as int,
        ));
    }
}

/// Walking a cursor from the start to its end yields the whole sequence: as
/// many elements as it is long, in its order.
pub proof fn lemma_drained<T>(items: Seq<T>)
    ensures
        drained(items, 0) == items,
        drained(items, 0).len() == items.len(),
{
    lemma_drained_from(items, 0);
}

/// A cursor over the elements of a `ChunkVec`, in the order in which they
/// were appended. It borrows the sequence and never changes it.
pub struct Iter<'a, T> {
    chunks: &'a Vec<Vec<T>>,
    chunk: usize,
    offset: usize,
}

impl<'a, T> Iter<'a, T> {
    /// All the elements of the sequence that is walked.
    pub closed spec fn items(&self) -> Seq<T> {
        chunks_of(self.chunks@).flatten()
    }

    /// How many elements the cursor has passed.
    pub closed spec fn position(&self) -> nat {
        start_of(chunks_of(self.chunks@), self.chunk as int) + self.offset as nat
    }

    /// The cursor stands at an element of a chunk, or behind the last chunk.
    pub closed spec fn in_place(&self) -> bool {
        &&& well_formed(chunks_of(self.chunks@))
        &&& self.chunk <= self.chunks@.len()
        &&& self.chunk < self.chunks@.len() ==> self.offset < self.chunks@[self.chunk as int]@.len()
        &&& self.chunk == self.chunks@.len() ==> self.offset == 0
    }

    /// What holds of every `Iter`: it stands in place, at most at the end.
    #[verifier::type_invariant]
    pub open spec fn well_formed(&self) -> bool {
        &&& self.in_place()
        &&& self.position() <= self.items().len()
    }

    /// A cursor before the first element of `chunks`.
    pub(crate) fn new(chunks: &'a Vec<Vec<T>>) -> (cursor: Self)
        requires
            well_formed(chunks_of(chunks@)),
        ensures
            cursor.items() == chunks_of(chunks@).flatten(),
            cursor.position() == 0,
    {
        proof {
            lemma_capacity_doubles(0);
            if chunks@.len() > 0 {
                assert(chunks_of(chunks@)[0].len() >= 1);
            }
        }
        Iter { chunks, chunk: 0, offset: 0 }
    }

    /// Yields the element at the cursor and steps past it, or yields `None`
    /// at the end and stays there.
    pub fn next(&mut self) -> (item: Option<&'a T>)
        ensures
            final(self).items() == old(self).items(),
            final(self).position() == step_from(old(self).items(), old(self).position()),
            match item {
                Some(element) => yield_at(old(self).items(), old(self).position()) == Some(
                    *element,
                ),
                None => yield_at(old(self).items(), old(self).position()).is_none(),
            },
    {
        proof {
            use_type_invariant(&*self);
        }
        let chunks: &'a Vec<Vec<T>> = self.chunks;
        let ghost layout = chunks_of(chunks@);
        if self.chunk < chunks.len() {
            let chunk = &chunks[self.chunk];
            let item = &chunk[self.offset];
            proof {
                lemma_flatten_split(layout, self.chunk as int);
                lemma_capacity_doubles((self.chunk + 1) as nat);
            }
            let chunk_len = chunk.len();
            if self.offset + 1 < chunk_len {
                self.offset = self.offset + 1;
            } else {
                *self = Iter { chunks, chunk: self.chunk + 1, offset: 0 };
            }
            Some(item)
        } else {
            proof {
                assert(layout.take(self.chunk as int) =~= layout);
            }
            None
        }
    }
}

} // verus!
