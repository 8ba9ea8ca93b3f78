use cauchy256::codec::{Block, Cauchy};
use cauchy256::Error;

#[test]
fn session_bound_above_field_size_is_rejected() {
    assert_eq!(Cauchy::new(257).err(), Some(Error::InvalidBlockCount));
    assert!(Cauchy::new(256).is_ok());
    assert!(Cauchy::new(0).is_ok());
}

#[test]
fn encode_without_data_blocks_is_rejected() {
    let mut session = Cauchy::new(8).unwrap();
    let data: Vec<Vec<u8>> = Vec::new();
    let mut recovery = vec![vec![0u8; 8]; 2];
    assert_eq!(session.encode(&data, &mut recovery), Err(Error::InvalidBlockCount));
    assert_eq!(recovery, vec![vec![0u8; 8]; 2]);
}

#[test]
fn encode_beyond_max_k_is_rejected() {
    let mut session = Cauchy::new(2).unwrap();
    let data = vec![vec![1u8; 8]; 3];
    let mut recovery = vec![vec![0u8; 8]; 2];
    assert_eq!(session.encode(&data, &mut recovery), Err(Error::InvalidBlockCount));
}

#[test]
fn encode_too_many_total_rows_is_rejected() {
    let mut session = Cauchy::new(256).unwrap();
    let data = vec![vec![1u8; 8]; 200];
    let mut recovery = vec![vec![0u8; 8]; 100];
    assert_eq!(session.encode(&data, &mut recovery), Err(Error::InvalidBlockCount));
}

#[test]
fn encode_zero_length_blocks_are_rejected() {
    let mut session = Cauchy::new(8).unwrap();
    let data = vec![Vec::<u8>::new(); 2];
    let mut recovery = vec![Vec::<u8>::new(); 2];
    assert_eq!(session.encode(&data, &mut recovery), Err(Error::InconsistentBlockSize));
}

#[test]
fn encode_unaligned_length_is_rejected() {
    let mut session = Cauchy::new(8).unwrap();
    let data = vec![vec![1u8; 7]; 2];
    let mut recovery = vec![vec![0u8; 7]; 2];
    assert_eq!(session.encode(&data, &mut recovery), Err(Error::InconsistentBlockSize));
}

#[test]
fn encode_mismatched_lengths_are_rejected() {
    let mut session = Cauchy::new(8).unwrap();
    let data = vec![vec![1u8; 8], vec![1u8; 16]];
    let mut recovery = vec![vec![0u8; 8]; 2];
    assert_eq!(session.encode(&data, &mut recovery), Err(Error::InconsistentBlockSize));
    let data = vec![vec![1u8; 8]; 2];
    let mut recovery = vec![vec![0u8; 8], vec![0u8; 24]];
    let before = recovery.clone();
    assert_eq!(session.encode(&data, &mut recovery), Err(Error::InconsistentBlockSize));
    assert_eq!(recovery, before);
}

#[test]
fn decode_row_index_out_of_range_is_rejected() {
    let mut session = Cauchy::new(8).unwrap();
    let mut blocks = vec![
        Block { row: 0, data: vec![1u8; 8] },
        Block { row: 4, data: vec![2u8; 8] },
    ];
    // k = 2, m = 2: valid tags are 0..4.
    assert_eq!(session.decode(2, 2, &mut blocks), Err(Error::InvalidRowIndex));
    assert_eq!(blocks[1].row, 4);
    assert_eq!(blocks[1].data, vec![2u8; 8]);
}

#[test]
fn decode_wrong_block_count_is_rejected() {
    let mut session = Cauchy::new(8).unwrap();
    let mut blocks = vec![Block { row: 0, data: vec![1u8; 8] }];
    assert_eq!(session.decode(2, 2, &mut blocks), Err(Error::InvalidBlockCount));
    assert_eq!(session.decode(0, 2, &mut Vec::new()), Err(Error::InvalidBlockCount));
}

#[test]
fn decode_beyond_max_k_is_rejected() {
    let mut session = Cauchy::new(1).unwrap();
    let mut blocks = vec![
        Block { row: 0, data: vec![1u8; 8] },
        Block { row: 1, data: vec![2u8; 8] },
    ];
    assert_eq!(session.decode(2, 2, &mut blocks), Err(Error::InvalidBlockCount));
}

#[test]
fn decode_size_violations_are_rejected() {
    let mut session = Cauchy::new(8).unwrap();
    let mut blocks = vec![
        Block { row: 0, data: vec![1u8; 8] },
        Block { row: 1, data: vec![2u8; 16] },
    ];
    assert_eq!(session.decode(2, 2, &mut blocks), Err(Error::InconsistentBlockSize));
    let mut blocks = vec![
        Block { row: 0, data: vec![1u8; 7] },
        Block { row: 1, data: vec![2u8; 7] },
    ];
    assert_eq!(session.decode(2, 2, &mut blocks), Err(Error::InconsistentBlockSize));
    let mut blocks = vec![
        Block { row: 0, data: Vec::new() },
        Block { row: 1, data: Vec::new() },
    ];
    assert_eq!(session.decode(2, 2, &mut blocks), Err(Error::InconsistentBlockSize));
}

#[test]
fn decode_duplicate_tags_fail_as_singular() {
    let mut session = Cauchy::new(8).unwrap();
    // Two different blocks both claiming data row 0: underdetermined.
    let mut blocks = vec![
        Block { row: 0, data: vec![1u8; 8] },
        Block { row: 0, data: vec![2u8; 8] },
    ];
    assert_eq!(session.decode(2, 2, &mut blocks), Err(Error::SingularSystem));
    // Two copies of the same recovery row: singular as well.
    let mut blocks = vec![
        Block { row: 3, data: vec![1u8; 8] },
        Block { row: 3, data: vec![1u8; 8] },
    ];
    assert_eq!(session.decode(2, 2, &mut blocks), Err(Error::SingularSystem));
}
