use psyche::local_data::{sample_range, sequence_pointers, shuffle_sequences, DataError, SequencePointer};

#[test]
fn sequences_step_through_each_file() {
    let seqs = sequence_pointers(&[10, 7, 3], 3);
    let expected = vec![
        SequencePointer { file_index: 0, byte_offset: 0 },
        SequencePointer { file_index: 0, byte_offset: 3 },
        SequencePointer { file_index: 0, byte_offset: 6 },
        SequencePointer { file_index: 1, byte_offset: 0 },
        SequencePointer { file_index: 1, byte_offset: 3 },
    ];
    assert_eq!(seqs, expected);
}

#[test]
fn shuffled_sequences_are_a_reordering() {
    let seqs = sequence_pointers(&[64], 2);
    assert_eq!(seqs.len(), 31);
    let shuffled = shuffle_sequences(seqs.clone(), [7u8; 32]);
    assert_eq!(shuffled.len(), seqs.len());
    assert_ne!(shuffled, seqs);
    let mut offsets: Vec<usize> = shuffled.iter().map(|p| p.byte_offset).collect();
    offsets.sort();
    let expected_offsets: Vec<usize> = seqs.iter().map(|p| p.byte_offset).collect();
    assert_eq!(offsets, expected_offsets);
    // the same seed gives the same order
    assert_eq!(shuffle_sequences(seqs.clone(), [7u8; 32]), shuffled);
}

#[test]
fn sample_ranges_read_one_extra_token() {
    let seqs = sequence_pointers(&[40], 8);
    assert_eq!(sample_range(&seqs, 4, 2, 1), Ok((0, 8, 18)));
    assert_eq!(sample_range(&seqs, 4, 2, 9), Err(DataError::OutOfBounds { data_id: 9, len: 4 }));
}
