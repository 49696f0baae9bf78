//! The chunked sequence itself: a list of buffers, each allocated once with
//! twice the capacity of the one before it and never reallocated.

use crate::growth::{checked_chunk_capacity, full_chunks_capacity};
use crate::iter::Iter;
use crate::layout::{
    cleared, closed_form_len, lemma_closed_form_len, lemma_pushed_flatten,
    lemma_pushed_well_formed, pushed, well_formed,
};
use vstd::prelude::*;

verus! {

/// An append-only sequence of `T`, kept in chunks of doubling capacity.
///
/// Its view is the sequence of its elements in the order in which they were
/// appended.
#[derive(Debug)]
pub struct ChunkVec<T> {
    chunks: Vec<Vec<T>>,
}

impl<T> View for ChunkVec<T> {
    type V = Seq<T>;

    open spec fn view(&self) -> Seq<T> {
        self.layout().flatten()
    }
}

/// The chunks of a list of buffers, each as the sequence of its elements.
pub open spec fn chunks_of<T>(buffers: Seq<Vec<T>>) -> Seq<Seq<T>> {
    buffers.map_values(|buffer: Vec<T>| buffer@)
}

/// Appends `value` to a list of buffers: to the last one where the growth
/// rule leaves it room, else as the first element of a new one, allocated
/// once for all that it will ever hold.
fn append<T>(buffers: &mut Vec<Vec<T>>, value: T)
    ensures
        chunks_of(final(buffers)@) == pushed(chunks_of(old(buffers)@), value),
{
    let count = buffers.len();
    if count > 0 {
        let last = count - 1;
        assert(buffers@[last as int].len() <= usize::MAX);
        let spare = match checked_chunk_capacity(last) {
            Some(capacity) => buffers[last].len() < capacity,
            None => true,
        };
        if spare {
            buffers[last].push(value);
            return ;
        }
    }
    let mut buffer = match checked_chunk_capacity(count) {
        Some(capacity) => Vec::with_capacity(capacity),
        None => Vec::new(),
    };
    buffer.push(value);
    buffers.push(buffer);
}

impl<T> ChunkVec<T> {
    /// The chunks, oldest first, each as the sequence of its elements.
    pub closed spec fn layout(&self) -> Seq<Seq<T>> {
        chunks_of(self.chunks@)
    }

    /// What holds of every `ChunkVec`: the chunks obey the growth rule, and
    /// the number of elements fits a `usize`.
    #[verifier::type_invariant]
    pub open spec fn well_formed(&self) -> bool {
        &&& well_formed(self.layout())
        &&& self@.len() <= usize::MAX
    }

    /// An empty sequence, with no chunk.
    pub fn new() -> (sequence: Self)
        ensures
            sequence.layout() == Seq::<Seq<T>>::empty(),
            sequence@ == Seq::<T>::empty(),
    {
        let chunks = Vec::new();
        ChunkVec { chunks }
    }

    /// Appends `value` behind the elements there are. It goes into the last
    /// chunk where that has spare capacity; otherwise it becomes the first
    /// element of a new chunk, so that no stored element is moved.
    pub fn push(&mut self, value: T)
        requires
            old(self)@.len() < usize::MAX,
        ensures
            final(self).layout() == pushed(old(self).layout(), value),
            final(self)@ == old(self)@.push(value),
    {
        proof {
            use_type_invariant(&*self);
            lemma_pushed_well_formed(self.layout(), value);
            lemma_pushed_flatten(self.layout(), value);
        }
        let mut chunks = Vec::new();
        std::mem::swap(&mut chunks, &mut self.chunks);
        append(&mut chunks, value);
        self.chunks = chunks;
    }

    /// Removes every element and releases every chunk.
    pub fn clear(&mut self)
        ensures
            final(self).layout() == cleared(old(self).layout()),
            final(self)@ == Seq::<T>::empty(),
    {
        let mut chunks = Vec::new();
        std::mem::swap(&mut chunks, &mut self.chunks);
        chunks.clear();
        self.chunks = chunks;
    }

    /// Whether the sequence holds no element, which is when it has no chunk.
    pub fn is_empty(&self) -> (empty: bool)
        ensures
            empty == (self@.len() == 0),
            empty == (self.layout().len() == 0),
    {
        proof {
            use_type_invariant(self);
            lemma_closed_form_len(self.layout());
        }
        self.chunks.is_empty()
    }

    /// The number of elements, in constant time: what the full chunks before
    /// the last one hold is known from their number alone.
    pub fn len(&self) -> (len: usize)
        ensures
            len == self@.len(),
            len == closed_form_len(self.layout()),
    {
        proof {
            use_type_invariant(self);
            lemma_closed_form_len(self.layout());
        }
        let count = self.chunks.len();
        if count == 0 {
            return 0;
        }
        let last_len = self.chunks[count - 1].len();
        full_chunks_capacity(count - 1) + last_len
    }

    /// A cursor before the first element. Walking it to its end yields every
    /// element once, in the order in which they were appended.
    pub fn iter(&self) -> (cursor: Iter<'_, T>)
        ensures
            cursor.items() == self@,
            cursor.position() == 0,
    {
        proof {
            use_type_invariant(self);
        }
        Iter::new(&self.chunks)
    }

    /// The number of chunks.
    pub fn chunk_count(&self) -> (count: usize)
        ensures
            count == self.layout().len(),
    {
        self.chunks.len()
    }
}

impl<T> Default for ChunkVec<T> {
    fn default() -> (sequence: Self)
        ensures
            sequence.layout() == Seq::<Seq<T>>::empty(),
            sequence@ == Seq::<T>::empty(),
    {
        ChunkVec::new()
    }
}

} // verus!
