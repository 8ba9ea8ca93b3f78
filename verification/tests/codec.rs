use cauchy256::codec::{init, AsBlock, Block, Cauchy};

/// Deterministic filler so the round trips exercise varied byte patterns.
fn pseudo_random_block(mut seed: u64, len: usize) -> Vec<u8> {
    let mut out = Vec::with_capacity(len);
    for _ in 0..len {
        seed ^= seed << 13;
        seed ^= seed >> 7;
        seed ^= seed << 17;
        out.push((seed >> 24) as u8);
    }
    out
}

fn make_data(k: usize, len: usize) -> Vec<Vec<u8>> {
    (0..k).map(|j| pseudo_random_block(0x9e37_79b9 + j as u64 * 101, len)).collect()
}

fn encode_all(k: usize, m: usize, len: usize) -> (Vec<Vec<u8>>, Vec<Vec<u8>>) {
    let data = make_data(k, len);
    let mut recovery = vec![vec![0u8; len]; m];
    let mut session = Cauchy::new(k as u32).unwrap();
    session.encode(&data, &mut recovery).unwrap();
    (data, recovery)
}

/// Encodes, keeps exactly the rows named by `tags`, decodes, and checks
/// that the original data comes back with tags `0..k`.
fn round_trip(k: usize, m: usize, len: usize, tags: &[u32]) {
    assert_eq!(tags.len(), k);
    let (data, recovery) = encode_all(k, m, len);
    let mut blocks: Vec<Block> = tags
        .iter()
        .map(|&t| Block {
            row: t,
            data: if (t as usize) < k {
                data[t as usize].clone()
            } else {
                recovery[t as usize - k].clone()
            },
        })
        .collect();
    let mut session = Cauchy::new(k as u32).unwrap();
    session.decode(k as u32, m as u32, &mut blocks).unwrap();
    assert_eq!(blocks.len(), k);
    for (t, block) in blocks.iter().enumerate() {
        assert_eq!(block.row, t as u32);
        assert_eq!(block.data, data[t]);
    }
}

#[test]
fn init_always_succeeds() {
    assert!(init().is_ok());
    assert!(init().is_ok());
}

#[test]
fn session_reports_max_k() {
    let session = Cauchy::new(17).unwrap();
    assert_eq!(session.max_k(), 17);
}

#[test]
fn round_trip_mixed_rows() {
    round_trip(5, 3, 16, &[7, 0, 3, 6, 2]);
    round_trip(4, 4, 64, &[4, 1, 7, 2]);
    round_trip(1, 2, 8, &[2]);
    round_trip(2, 30, 8, &[31, 17]);
}

#[test]
fn round_trip_larger_blocks() {
    round_trip(8, 4, 512, &[8, 9, 10, 11, 4, 5, 6, 7]);
    round_trip(32, 16, 64, &{
        // Lose the first 16 data rows; recover from all 16 recovery rows.
        let mut tags: Vec<u32> = (32..48).collect();
        tags.extend(16..32);
        tags
    });
}

#[test]
fn all_recovery_rows_case() {
    // m < k: all m recovery rows plus k - m data rows.
    round_trip(3, 2, 8, &[3, 4, 2]);
    round_trip(5, 3, 24, &[5, 6, 7, 0, 4]);
    // m == k: every data row replaced by a recovery row.
    round_trip(2, 2, 8, &[2, 3]);
    round_trip(4, 4, 16, &[4, 5, 6, 7]);
}

#[test]
fn all_data_rows_case() {
    let k = 4usize;
    let m = 3usize;
    let len = 16usize;
    let data = make_data(k, len);
    // Supply the data rows themselves, shuffled.
    let order = [2u32, 0, 3, 1];
    let mut blocks: Vec<Block> = order
        .iter()
        .map(|&t| Block { row: t, data: data[t as usize].clone() })
        .collect();
    let mut session = Cauchy::new(k as u32).unwrap();
    session.decode(k as u32, m as u32, &mut blocks).unwrap();
    for (t, block) in blocks.iter().enumerate() {
        assert_eq!(block.row, t as u32);
        assert_eq!(block.data, data[t]);
    }
}

#[test]
fn encoding_is_deterministic() {
    let k = 6usize;
    let m = 4usize;
    let len = 40usize;
    let data = make_data(k, len);
    let mut recovery_a = vec![vec![0u8; len]; m];
    let mut recovery_b = vec![vec![255u8; len]; m];
    let mut session_a = Cauchy::new(k as u32).unwrap();
    let mut session_b = Cauchy::new(64).unwrap();
    session_a.encode(&data, &mut recovery_a).unwrap();
    session_b.encode(&data, &mut recovery_b).unwrap();
    assert_eq!(recovery_a, recovery_b);
}

#[test]
fn encode_with_no_recovery_blocks_succeeds() {
    let data = make_data(3, 8);
    let mut recovery: Vec<Vec<u8>> = Vec::new();
    let mut session = Cauchy::new(3).unwrap();
    assert!(session.encode(&data, &mut recovery).is_ok());
}

#[test]
fn session_is_reusable_across_calls() {
    let k = 3usize;
    let m = 2usize;
    let len = 16usize;
    let data = make_data(k, len);
    let mut session = Cauchy::new(k as u32).unwrap();
    let mut recovery_a = vec![vec![0u8; len]; m];
    session.encode(&data, &mut recovery_a).unwrap();
    let mut blocks: Vec<Block> = vec![
        Block { row: 3, data: recovery_a[0].clone() },
        Block { row: 1, data: data[1].clone() },
        Block { row: 4, data: recovery_a[1].clone() },
    ];
    session.decode(k as u32, m as u32, &mut blocks).unwrap();
    for (t, block) in blocks.iter().enumerate() {
        assert_eq!(block.row, t as u32);
        assert_eq!(block.data, data[t]);
    }
    let mut recovery_b = vec![vec![0u8; len]; m];
    session.encode(&data, &mut recovery_b).unwrap();
    assert_eq!(recovery_a, recovery_b);
}

#[test]
fn as_block_views_a_block() {
    let mut block = Block { row: 3, data: vec![1, 2, 3] };
    assert_eq!(block.index(), 3);
    assert_eq!(block.data(), &vec![1u8, 2, 3]);
    block.set_index(0);
    assert_eq!(block.index(), 0);
    assert_eq!(block.data(), &vec![1u8, 2, 3]);
}
