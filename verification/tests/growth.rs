use chunkvec::chunkvec::ChunkVec;
use chunkvec::growth::{checked_chunk_capacity, full_chunks_capacity, FIRST_CHUNK_SIZE};

#[test]
fn first_chunk_holds_eight() {
    assert_eq!(FIRST_CHUNK_SIZE, 8);
    assert_eq!(checked_chunk_capacity(0), Some(8));
}

#[test]
fn each_chunk_doubles_the_one_before() {
    assert_eq!(checked_chunk_capacity(1), Some(16));
    assert_eq!(checked_chunk_capacity(2), Some(32));
    assert_eq!(checked_chunk_capacity(3), Some(64));
    assert_eq!(checked_chunk_capacity(4), Some(128));
    for index in 0..40usize {
        let here: usize = checked_chunk_capacity(index).unwrap();
        let next: usize = checked_chunk_capacity(index + 1).unwrap();
        assert_eq!(next, 2 * here);
    }
}

#[test]
fn chunk_capacity_is_none_where_it_overflows() {
    let bits: usize = usize::BITS as usize;
    assert_eq!(checked_chunk_capacity(bits - 4), Some(1usize << (bits - 1)));
    assert_eq!(checked_chunk_capacity(bits - 3), None);
    assert_eq!(checked_chunk_capacity(bits), None);
    assert_eq!(checked_chunk_capacity(usize::MAX), None);
}

#[test]
fn full_chunks_hold_the_closed_form() {
    assert_eq!(full_chunks_capacity(0), 0);
    assert_eq!(full_chunks_capacity(1), 8);
    assert_eq!(full_chunks_capacity(2), 24);
    assert_eq!(full_chunks_capacity(3), 56);
    assert_eq!(full_chunks_capacity(4), 120);
    assert_eq!(full_chunks_capacity(5), 248);
}

#[test]
fn closed_form_equals_the_sum_of_the_capacities() {
    let mut sum: usize = 0;
    for count in 0..40usize {
        assert_eq!(full_chunks_capacity(count), sum);
        sum += checked_chunk_capacity(count).unwrap();
    }
}

#[test]
fn largest_closed_form_fits() {
    let bits: usize = usize::BITS as usize;
    assert_eq!(full_chunks_capacity(bits - 3), usize::MAX - 7);
}

#[test]
fn len_lies_between_the_closed_forms_after_every_change() {
    let mut sequence: ChunkVec<usize> = ChunkVec::new();
    for _ in 0..3usize {
        for value in 0..2_000usize {
            sequence.push(value);
            let chunks: usize = sequence.chunk_count();
            assert!(chunks >= 1);
            assert!(full_chunks_capacity(chunks - 1) < sequence.len());
            assert!(sequence.len() <= full_chunks_capacity(chunks));
            assert_eq!(sequence.len(), value + 1);
        }
        sequence.clear();
        assert_eq!(sequence.chunk_count(), 0);
        assert_eq!(sequence.len(), 0);
    }
}
