use isg::erasure::ErasureCoder;
use isg::Error;

#[test]
fn test_encode_decode() {
    let coder = ErasureCoder::new(4, 2).unwrap();
    let data = b"Hello, world! This is a test of erasure coding.";

    let shards = coder.encode(data).unwrap();
    assert_eq!(shards.len(), 6); // 4 data + 2 parity

    // Convert to Option format
    let shard_opts: Vec<Option<Vec<u8>>> = shards.into_iter().map(Some).collect();

    // Reconstruct
    let reconstructed = coder.reconstruct(shard_opts, data.len()).unwrap();
    assert_eq!(&reconstructed, data);
}

#[test]
fn test_reconstruct_with_missing_shards() {
    let coder = ErasureCoder::new(4, 2).unwrap();
    let data = b"Hello, world! This is a test of erasure coding.";

    let shards = coder.encode(data).unwrap();

    // Simulate losing 2 shards (indices 1 and 3)
    let mut shard_opts: Vec<Option<Vec<u8>>> = shards.into_iter().map(Some).collect();
    shard_opts[1] = None;
    shard_opts[3] = None;

    // Should still be able to reconstruct (we have 4 out of 6 shards, need 4)
    let reconstructed = coder.reconstruct(shard_opts, data.len()).unwrap();
    assert_eq!(&reconstructed, data);
}

fn sample(len: usize) -> Vec<u8> {
    (0..len).map(|i| (i * 31 + 7) as u8).collect()
}

#[test]
fn erasure_recovery() {
    let coder = ErasureCoder::new(4, 2).unwrap();
    let data = sample(100);
    let shards = coder.encode(&data).unwrap();
    assert_eq!(shards.len(), 6);
    for shard in &shards {
        assert_eq!(shard.len(), 25);
    }
    let mut slots: Vec<Option<Vec<u8>>> = shards.iter().cloned().map(Some).collect();
    slots[1] = None;
    slots[3] = None;
    assert_eq!(coder.reconstruct(slots.clone(), 100).unwrap(), data);
    slots[4] = None;
    assert_eq!(coder.reconstruct(slots, 100).unwrap_err(), Error::ErasureInsufficient);
}

#[test]
fn data_shards_are_the_data_padded_with_zeros() {
    let coder = ErasureCoder::new(4, 2).unwrap();
    let data = sample(10);
    let shards = coder.encode(&data).unwrap();
    assert_eq!(shards[0], data[0..3].to_vec());
    assert_eq!(shards[1], data[3..6].to_vec());
    assert_eq!(shards[2], data[6..9].to_vec());
    assert_eq!(shards[3], vec![data[9], 0, 0]);
    assert_eq!(shards[4].len(), 3);
    assert_eq!(shards[5].len(), 3);
    assert_ne!(shards[4], vec![0, 0, 0]);
    let codec = reed_solomon_erasure::galois_8::ReedSolomon::new(4, 2).unwrap();
    assert!(codec.verify(&shards).unwrap());
}

#[test]
fn any_choice_of_lost_shards_within_the_parity_recovers() {
    let coder = ErasureCoder::new(3, 2).unwrap();
    let data = sample(47);
    let shards = coder.encode(&data).unwrap();
    for a in 0..5 {
        for b in 0..5 {
            let mut slots: Vec<Option<Vec<u8>>> = shards.iter().cloned().map(Some).collect();
            slots[a] = None;
            slots[b] = None;
            assert_eq!(coder.reconstruct(slots, data.len()).unwrap(), data);
        }
    }
    for a in 0..5 {
        for b in (a + 1)..5 {
            for c in (b + 1)..5 {
                let mut slots: Vec<Option<Vec<u8>>> =
                    shards.iter().cloned().map(Some).collect();
                slots[a] = None;
                slots[b] = None;
                slots[c] = None;
                assert_eq!(
                    coder.reconstruct(slots, data.len()).unwrap_err(),
                    Error::ErasureInsufficient
                );
            }
        }
    }
}

#[test]
fn empty_data_encodes_to_empty_shards_and_back() {
    let coder = ErasureCoder::new(4, 2).unwrap();
    let shards = coder.encode(&[]).unwrap();
    assert_eq!(shards, vec![Vec::<u8>::new(); 6]);
    let mut slots: Vec<Option<Vec<u8>>> = shards.into_iter().map(Some).collect();
    slots[0] = None;
    slots[5] = None;
    assert_eq!(coder.reconstruct(slots, 0).unwrap(), Vec::<u8>::new());
}

#[test]
fn a_coder_without_parity_only_splits() {
    let coder = ErasureCoder::new(3, 0).unwrap();
    assert_eq!(coder.total_shards(), 3);
    let data = sample(7);
    let shards = coder.encode(&data).unwrap();
    assert_eq!(shards.len(), 3);
    assert_eq!(shards[2], vec![data[6], 0, 0]);
    let slots: Vec<Option<Vec<u8>>> = shards.iter().cloned().map(Some).collect();
    assert_eq!(coder.reconstruct(slots.clone(), 7).unwrap(), data);
    let mut lost = slots;
    lost[1] = None;
    assert_eq!(coder.reconstruct(lost, 7).unwrap_err(), Error::ErasureInsufficient);
}

#[test]
fn reconstruction_cuts_to_the_original_size() {
    let coder = ErasureCoder::new(2, 1).unwrap();
    let data = sample(5);
    let shards = coder.encode(&data).unwrap();
    let slots: Vec<Option<Vec<u8>>> = shards.into_iter().map(Some).collect();
    assert_eq!(coder.reconstruct(slots.clone(), 5).unwrap(), data);
    assert_eq!(coder.reconstruct(slots.clone(), 3).unwrap(), data[..3].to_vec());
    let mut padded = data.clone();
    padded.push(0);
    assert_eq!(coder.reconstruct(slots.clone(), 6).unwrap(), padded);
    assert_eq!(coder.reconstruct(slots, 60).unwrap(), padded);
}

#[test]
fn reconstruction_rejects_slots_of_the_wrong_shape() {
    let coder = ErasureCoder::new(2, 1).unwrap();
    let short = vec![Some(vec![1u8, 2]), Some(vec![3u8, 4])];
    assert_eq!(coder.reconstruct(short, 4).unwrap_err(), Error::ErasureInternal);
    let long = vec![Some(vec![1u8]), Some(vec![2u8]), Some(vec![3u8]), Some(vec![4u8])];
    assert_eq!(coder.reconstruct(long, 2).unwrap_err(), Error::ErasureInternal);
    let uneven = vec![Some(vec![1u8, 2]), Some(vec![3u8]), None];
    assert_eq!(coder.reconstruct(uneven, 3).unwrap_err(), Error::ErasureInternal);
    let uneven_full = vec![Some(vec![1u8, 2]), Some(vec![3u8, 4]), Some(vec![5u8])];
    assert_eq!(coder.reconstruct(uneven_full, 3).unwrap_err(), Error::ErasureInternal);
    let none: Vec<Option<Vec<u8>>> = vec![None, None, None];
    assert_eq!(coder.reconstruct(none, 3).unwrap_err(), Error::ErasureInsufficient);
}

#[test]
fn coder_parameters_are_checked() {
    assert_eq!(ErasureCoder::new(0, 2).unwrap_err(), Error::ErasureInternal);
    assert_eq!(ErasureCoder::new(200, 56).unwrap_err(), Error::ErasureInternal);
    assert_eq!(ErasureCoder::new(usize::MAX, 1).unwrap_err(), Error::ErasureInternal);
    assert_eq!(ErasureCoder::new(1, usize::MAX).unwrap_err(), Error::ErasureInternal);
    let largest = ErasureCoder::new(200, 55).unwrap();
    assert_eq!(largest.data_shards(), 200);
    assert_eq!(largest.parity_shards(), 55);
    assert_eq!(largest.total_shards(), 255);
    let smallest = ErasureCoder::new(1, 0).unwrap();
    assert_eq!(smallest.total_shards(), 1);
    assert_eq!(smallest.encode(b"x").unwrap(), vec![vec![b'x']]);
}

#[test]
fn one_data_shard_with_parity_recovers_from_parity_alone() {
    let coder = ErasureCoder::new(1, 2).unwrap();
    let data = sample(9);
    let shards = coder.encode(&data).unwrap();
    assert_eq!(shards[0], data);
    let slots = vec![None, None, Some(shards[2].clone())];
    assert_eq!(coder.reconstruct(slots, 9).unwrap(), data);
}

#[test]
fn shards_have_one_size_whatever_the_input() {
    for (n, k, len) in [(4usize, 2usize, 100usize), (4, 2, 101), (3, 0, 7), (5, 3, 0), (1, 1, 1)] {
        let coder = ErasureCoder::new(n, k).unwrap();
        let shards = coder.encode(&sample(len)).unwrap();
        assert_eq!(shards.len(), n + k);
        let size = (len + n - 1) / n;
        assert!(shards.iter().all(|shard| shard.len() == size));
    }
}
