//! The chunks of a sequence as mathematical values: a `Seq` of chunks, oldest
//! first, each a `Seq` of its elements. The element sequence is the chunks'
//! concatenation, `flatten()`.

use crate::growth::{
    chunk_capacity, full_capacity, lemma_capacity_doubles, lemma_capacity_increases,
    lemma_full_capacity_step,
};
use vstd::prelude::*;
use vstd::seq_lib::lemma_flatten_concat;

verus! {

/// The growth rule: every chunk but the last is filled to its capacity, and
/// the last one holds at least one element and at most its capacity. No
/// chunks at all is the empty sequence.
pub open spec fn well_formed<T>(chunks: Seq<Seq<T>>) -> bool {
    &&& forall|i: int|
        0 <= i < chunks.len() - 1 ==> (#[trigger] chunks[i]).len() == chunk_capacity(i as nat)
    &&& chunks.len() > 0 ==> 1 <= chunks.last().len() <= chunk_capacity(
        (chunks.len() - 1) as nat,
    )
}

/// The number of elements, from the number of chunks and the length of the
/// last one alone.
pub open spec fn closed_form_len<T>(chunks: Seq<Seq<T>>) -> nat {
    if chunks.len() == 0 {
        0
    } else {
        full_capacity((chunks.len() - 1) as nat) + chunks.last().len()
    }
}

/// Whether there is a last chunk with spare capacity.
pub open spec fn has_room<T>(chunks: Seq<Seq<T>>) -> bool {
    chunks.len() > 0 && chunks.last().len() < chunk_capacity((chunks.len() - 1) as nat)
}

/// The chunks after appending `value`: it goes into the last chunk where that
/// has room, and into a new chunk of its own otherwise.
pub open spec fn pushed<T>(chunks: Seq<Seq<T>>, value: T) -> Seq<Seq<T>> {
    if has_room(chunks) {
        chunks.update(chunks.len() - 1, chunks.last().push(value))
    } else {
        chunks.push(seq![value])
    }
}

/// The chunks after appending `values` one by one, in order.
pub open spec fn pushed_all<T>(chunks: Seq<Seq<T>>, values: Seq<T>) -> Seq<Seq<T>>
    decreases values.len(),
{
    if values.len() == 0 {
        chunks
    } else {
        pushed(pushed_all(chunks, values.drop_last()), values.last())
    }
}

/// The chunks after removing every element: none.
pub open spec fn cleared<T>(chunks: Seq<Seq<T>>) -> Seq<Seq<T>> {
    Seq::empty()
}

/// Position, in the element sequence, of the first element of the chunk at
/// `index`.
pub open spec fn start_of<T>(chunks: Seq<Seq<T>>, index: int) -> nat {
    chunks.take(index).flatten().len()
}

/// The element sequence splits at every chunk boundary.
pub proof fn lemma_flatten_split<T>(chunks: Seq<Seq<T>>, index: int)
    requires
        0 <= index < chunks.len(),
    ensures
        chunks.flatten() == chunks.take(index).flatten() + chunks[index] + chunks.skip(
            index + 1,
        ).flatten(),
        chunks.take(index + 1).flatten() == chunks.take(index).flatten() + chunks[index],
        start_of(chunks, index + 1) == start_of(chunks, index) + chunks[index].len(),
{
    let before = chunks.take(index);
    let single = seq![chunks[index]];
    let after = chunks.skip(index + 1);
    assert(chunks =~= before + single + after);
    assert(chunks.take(index + 1) =~= before + single);
    lemma_flatten_concat(before + single, after);
    lemma_flatten_concat(before, single);
    single.lemma_flatten_one_element();
}

/// The element at offset `offset` of the chunk at `index` is the element at
/// position `start_of(chunks, index) + offset` of the sequence.
pub proof fn lemma_flatten_index<T>(chunks: Seq<Seq<T>>, index: int, offset: int)
    requires
        0 <= index < chunks.len(),
        0 <= offset < chunks[index].len(),
    ensures
        start_of(chunks, index) + offset < chunks.flatten().len(),
        chunks.flatten()[start_of(chunks, index) + offset] == chunks[index][offset],
{
    lemma_flatten_split(chunks, index);
}

/// Before a chunk boundary lie exactly the elements of the full chunks that
/// precede it.
pub proof fn lemma_start_of_chunk<T>(chunks: Seq<Seq<T>>, index: int)
    requires
        well_formed(chunks),
        0 <= index < chunks.len(),
    ensures
        start_of(chunks, index) == full_capacity(index as nat),
    decreases index,
{
    if index == 0 {
        lemma_full_capacity_step(0);
    } else {
        lemma_start_of_chunk(chunks, index - 1);
        lemma_flatten_split(chunks, index - 1);
        lemma_full_capacity_step((index - 1) as nat);
    }
}

/// The closed form gives the number of elements: it equals the length of the
/// chunks' concatenation, whatever the number of chunks and whether the last
/// chunk holds one element, is full, or anything between.
pub proof fn lemma_closed_form_len<T>(chunks: Seq<Seq<T>>)
    requires
        well_formed(chunks),
    ensures
        chunks.flatten().len() == closed_form_len(chunks),
{
    if chunks.len() > 0 {
        let last = chunks.len() - 1;
        lemma_start_of_chunk(chunks, last);
        lemma_flatten_split(chunks, last);
    }
}

/// Appending keeps the growth rule.
pub proof fn lemma_pushed_well_formed<T>(chunks: Seq<Seq<T>>, value: T)
    requires
        well_formed(chunks),
    ensures
        well_formed(pushed(chunks, value)),
{
    lemma_capacity_doubles(chunks.len());
}

/// Appending puts the value behind all the elements and moves none of them.
pub proof fn lemma_pushed_flatten<T>(chunks: Seq<Seq<T>>, value: T)
    ensures
        pushed(chunks, value).flatten() == chunks.flatten().push(value),
{
    broadcast use Seq::lemma_flatten_push;

    if has_room(chunks) {
        let front = chunks.drop_last();
        assert(chunks =~= front.push(chunks.last()));
        assert(pushed(chunks, value) =~= front.push(chunks.last().push(value)));
        assert(front.flatten() + chunks.last().push(value) =~= (front.flatten()
            + chunks.last()).push(value));
    }
}

/// Every element stays in its chunk at its offset when a value is appended:
/// each chunk is a prefix of the chunk that stands in its place afterwards.
pub proof fn lemma_pushed_keeps_places<T>(chunks: Seq<Seq<T>>, value: T)
    ensures
        pushed(chunks, value).len() >= chunks.len(),
        forall|i: int|
            0 <= i < chunks.len() ==> (#[trigger] chunks[i]).is_prefix_of(
                pushed(chunks, value)[i],
            ),
{
}

/// A new chunk is begun exactly when the elements so far fill the chunks
/// there are: at lengths `0`, `FIRST_CHUNK_SIZE`, `3 * FIRST_CHUNK_SIZE`, and
/// so on. At every other length the number of chunks stays.
pub proof fn lemma_growth_points<T>(chunks: Seq<Seq<T>>, value: T)
    requires
        well_formed(chunks),
    ensures
        chunks.flatten().len() == full_capacity(chunks.len()) ==> pushed(chunks, value).len()
            == chunks.len() + 1,
        chunks.flatten().len() != full_capacity(chunks.len()) ==> pushed(chunks, value).len()
            == chunks.len(),
{
    lemma_closed_form_len(chunks);
    if chunks.len() > 0 {
        lemma_full_capacity_step((chunks.len() - 1) as nat);
    } else {
        lemma_full_capacity_step(0);
    }
}

/// The number of elements fixes the number of chunks: with `count` chunks it
/// lies above what `count - 1` chunks hold and within what `count` chunks
/// hold.
pub proof fn lemma_chunk_count<T>(chunks: Seq<Seq<T>>)
    requires
        well_formed(chunks),
        chunks.len() > 0,
    ensures
        full_capacity((chunks.len() - 1) as nat) < chunks.flatten().len() <= full_capacity(
            chunks.len(),
        ),
{
    lemma_closed_form_len(chunks);
    lemma_full_capacity_step((chunks.len() - 1) as nat);
}

/// Appending any values, one by one from nothing, keeps the growth rule,
/// yields them in the order in which they were appended, and gives a closed
/// form equal to their number.
pub proof fn lemma_pushed_all<T>(values: Seq<T>)
    ensures
        well_formed(pushed_all(Seq::<Seq<T>>::empty(), values)),
        pushed_all(Seq::<Seq<T>>::empty(), values).flatten() == values,
        closed_form_len(pushed_all(Seq::<Seq<T>>::empty(), values)) == values.len(),
    decreases values.len(),
{
    let empty = Seq::<Seq<T>>::empty();
    if values.len() > 0 {
        let before = pushed_all(empty, values.drop_last());
        lemma_pushed_all(values.drop_last());
        lemma_pushed_well_formed(before, values.last());
        lemma_pushed_flatten(before, values.last());
    }
    lemma_closed_form_len(pushed_all(empty, values));
}

/// Clearing twice is clearing once, and what is left holds no element.
pub proof fn lemma_cleared<T>(chunks: Seq<Seq<T>>)
    ensures
        cleared(cleared(chunks)) == cleared(chunks),
        well_formed(cleared(chunks)),
        cleared(chunks).flatten() == Seq::<T>::empty(),
        closed_form_len(cleared(chunks)) == 0,
{
}

/// Two sequences of chunks that obey the growth rule and hold the same number
/// of elements have the same number of chunks.
pub proof fn lemma_same_len_same_count<T>(a: Seq<Seq<T>>, b: Seq<Seq<T>>)
    requires
        well_formed(a),
        well_formed(b),
        a.flatten().len() == b.flatten().len(),
    ensures
        a.len() == b.len(),
{
    lemma_closed_form_len(a);
    lemma_closed_form_len(b);
    if a.len() > 0 && b.len() > 0 {
        lemma_chunk_count(a);
        lemma_chunk_count(b);
        if a.len() < b.len() {
            if a.len() < b.len() - 1 {
                lemma_capacity_increases(a.len(), (b.len() - 1) as nat);
            }
        } else if b.len() < a.len() {
            if b.len() < a.len() - 1 {
                lemma_capacity_increases(b.len(), (a.len() - 1) as nat);
            }
        }
    }
}

/// The elements fix the chunks: two sequences of chunks that obey the growth
/// rule and hold the same elements in the same order are the same, chunk for
/// chunk. So the chunk and the offset at which an element stands depend on
/// its position alone, however many elements follow it.
pub proof fn lemma_elements_fix_chunks<T>(a: Seq<Seq<T>>, b: Seq<Seq<T>>)
    requires
        well_formed(a),
        well_formed(b),
        a.flatten() == b.flatten(),
    ensures
        a == b,
{
    lemma_same_len_same_count(a, b);
    lemma_closed_form_len(a);
    lemma_closed_form_len(b);
    assert forall|i: int| 0 <= i < a.len() implies a[i] == b[i] by {
        lemma_start_of_chunk(a, i);
        lemma_start_of_chunk(b, i);
        assert forall|j: int| 0 <= j < a[i].len() implies a[i][j] == b[i][j] by {
            lemma_flatten_index(a, i, j);
            lemma_flatten_index(b, i, j);
        }
    }
}

} // verus!
