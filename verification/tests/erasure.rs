use hbbft::erasure::{decode, encode, ErasureError};

fn payload(len: usize) -> Vec<u8> {
    let mut out = Vec::new();
    for i in 0..len {
        out.push((i * 31 + 7) as u8);
    }
    out
}

fn keep(shards: &Vec<Vec<u8>>, mask: usize) -> Vec<Option<Vec<u8>>> {
    let mut out = Vec::new();
    for (i, s) in shards.iter().enumerate() {
        if mask & (1 << i) != 0 {
            out.push(Some(s.clone()));
        } else {
            out.push(None);
        }
    }
    out
}

#[test]
fn data_shards_hold_the_framed_payload() {
    let shards = encode(&vec![97, 98], 4, 1).unwrap();
    assert_eq!(shards.len(), 4);
    assert_eq!(shards[0], vec![0, 0, 0]);
    assert_eq!(shards[1], vec![2, 97, 98]);
    assert_eq!(shards[2].len(), 3);
    assert_eq!(shards[3].len(), 3);
}

#[test]
fn last_data_shard_is_padded_with_zeros() {
    let shards = encode(&vec![9, 8, 7], 7, 2).unwrap();
    assert_eq!(shards.len(), 7);
    assert_eq!(shards[0], vec![0, 0, 0]);
    assert_eq!(shards[1], vec![3, 9, 8]);
    assert_eq!(shards[2], vec![7, 0, 0]);
}

#[test]
fn length_is_written_most_significant_byte_first() {
    let shards = encode(&payload(0x01_02_03), 2, 0).unwrap();
    assert_eq!(&shards[0][0..4], &[0, 1, 2, 3]);
    assert_eq!(shards[0].len(), 0x01_02_03 + 4);
    assert_eq!(&shards[0][4..], &payload(0x01_02_03)[..]);
}

#[test]
fn parity_shards_are_those_of_the_code() {
    let mut expected = vec![vec![0u8, 0, 0], vec![2, 97, 98], vec![0; 3], vec![0; 3]];
    let codec = reed_solomon_erasure::galois_8::ReedSolomon::new(2, 2).unwrap();
    codec.encode(&mut expected).unwrap();
    let shards = encode(&vec![97, 98], 4, 1).unwrap();
    assert_eq!(shards, expected);
    assert_ne!(shards[2], vec![0; 3]);
    assert_ne!(shards[3], vec![0; 3]);
}

#[test]
fn empty_payload_is_coded() {
    let shards = encode(&vec![], 4, 1).unwrap();
    assert_eq!(shards[0], vec![0, 0]);
    assert_eq!(shards[1], vec![0, 0]);
    let got = decode(keep(&shards, 0b1100), 4, 1);
    assert_eq!(got, Ok(vec![]));
}

#[test]
fn every_large_enough_subset_gives_the_payload_back() {
    for len in [0usize, 1, 2, 5, 14, 100] {
        let value = payload(len);
        let shards = encode(&value, 4, 1).unwrap();
        for mask in 0..16usize {
            let got = decode(keep(&shards, mask), 4, 1);
            if mask.count_ones() >= 2 {
                assert_eq!(got, Ok(value.clone()));
            } else {
                assert_eq!(got, Err(ErasureError::TooFewShards));
            }
        }
    }
}

#[test]
fn seven_shards_for_two_faults_round_trip() {
    let value = b"Proposed value".to_vec();
    let shards = encode(&value, 7, 2).unwrap();
    for mask in 0..128usize {
        let got = decode(keep(&shards, mask), 7, 2);
        if mask.count_ones() >= 3 {
            assert_eq!(got, Ok(value.clone()));
        } else {
            assert_eq!(got, Err(ErasureError::TooFewShards));
        }
    }
}

#[test]
fn code_without_parity_round_trips() {
    let value = payload(10);
    let shards = encode(&value, 1, 0).unwrap();
    assert_eq!(shards.len(), 1);
    assert_eq!(shards[0].len(), 14);
    assert_eq!(decode(keep(&shards, 1), 1, 0), Ok(value));
    assert_eq!(decode(keep(&shards, 0), 1, 0), Err(ErasureError::TooFewShards));
}

#[test]
fn largest_code_round_trips() {
    let value = payload(1000);
    let shards = encode(&value, 256, 85).unwrap();
    assert_eq!(shards.len(), 256);
    let mut some: Vec<Option<Vec<u8>>> = Vec::new();
    for (i, s) in shards.iter().enumerate() {
        if i >= 170 {
            some.push(Some(s.clone()));
        } else {
            some.push(None);
        }
    }
    assert_eq!(decode(some, 256, 85), Ok(value));
}

#[test]
fn parameters_without_a_code_are_refused() {
    assert_eq!(encode(&vec![1], 0, 0), Err(ErasureError::InvalidParameters));
    assert_eq!(encode(&vec![1], 3, 3), Err(ErasureError::InvalidParameters));
    assert_eq!(encode(&vec![1], 3, 4), Err(ErasureError::InvalidParameters));
    assert_eq!(encode(&vec![1], 257, 1), Err(ErasureError::InvalidParameters));
    assert_eq!(encode(&vec![1], 4, usize::MAX), Err(ErasureError::InvalidParameters));
    assert_eq!(decode(vec![None, None], 0, 0), Err(ErasureError::InvalidParameters));
    assert_eq!(decode(vec![None; 257], 257, 1), Err(ErasureError::InvalidParameters));
    assert_eq!(decode(vec![Some(vec![1]); 3], 3, 3), Err(ErasureError::InvalidParameters));
}

#[test]
fn wrong_number_of_shards_is_refused() {
    let shards = encode(&payload(5), 4, 1).unwrap();
    let mut three = keep(&shards, 0b1111);
    three.pop();
    assert_eq!(decode(three, 4, 1), Err(ErasureError::InvalidParameters));
    let mut five = keep(&shards, 0b1111);
    five.push(None);
    assert_eq!(decode(five, 4, 1), Err(ErasureError::InvalidParameters));
}

#[test]
fn corrupted_shard_among_all_is_found() {
    let shards = encode(&payload(9), 4, 1).unwrap();
    for at in 0..4 {
        let mut all = keep(&shards, 0b1111);
        all[at].as_mut().unwrap()[1] ^= 0x10;
        assert_eq!(decode(all, 4, 1), Err(ErasureError::Inconsistent));
    }
}

#[test]
fn corrupted_shard_among_three_is_found() {
    let shards = encode(&payload(9), 4, 1).unwrap();
    let mut three = keep(&shards, 0b0111);
    three[2].as_mut().unwrap()[0] ^= 1;
    assert_eq!(decode(three, 4, 1), Err(ErasureError::Inconsistent));
}

#[test]
fn shards_of_different_lengths_are_inconsistent() {
    let shards = encode(&payload(9), 4, 1).unwrap();
    let mut all = keep(&shards, 0b1011);
    all[1].as_mut().unwrap().push(0);
    assert_eq!(decode(all, 4, 1), Err(ErasureError::Inconsistent));
    let mut empty = keep(&shards, 0b1011);
    empty[0] = Some(vec![]);
    assert_eq!(decode(empty, 4, 1), Err(ErasureError::Inconsistent));
    assert_eq!(decode(vec![Some(vec![])], 1, 0), Err(ErasureError::Inconsistent));
}

#[test]
fn data_without_a_frame_is_malformed() {
    assert_eq!(
        decode(vec![Some(vec![255, 255, 255]), Some(vec![255, 0, 0])], 2, 1),
        Err(ErasureError::Malformed)
    );
    assert_eq!(decode(vec![Some(vec![0, 0, 1])], 1, 0), Err(ErasureError::Malformed));
    assert_eq!(decode(vec![Some(vec![0, 0, 0, 1])], 1, 0), Err(ErasureError::Malformed));
    assert_eq!(decode(vec![Some(vec![0, 0, 0, 1, 77])], 1, 0), Ok(vec![77]));
}

#[test]
fn missing_shards_are_rebuilt_from_parity_alone() {
    let value = payload(21);
    let shards = encode(&value, 4, 1).unwrap();
    assert_eq!(decode(keep(&shards, 0b1100), 4, 1), Ok(value));
}
