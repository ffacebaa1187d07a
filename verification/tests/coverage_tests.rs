use antithesis_browser::coverage::{
    accumulate_coverage, bucket, mix64, rotate_and_diff, transition_hash, EDGE_MAP_SIZE,
};

#[test]
fn bucket_values_are_afl_buckets() {
    assert_eq!(bucket(0), 0);
    assert_eq!(bucket(1), 1);
    assert_eq!(bucket(2), 2);
    assert_eq!(bucket(3), 3);
    assert_eq!(bucket(4), 4);
    assert_eq!(bucket(7), 4);
    assert_eq!(bucket(8), 8);
    assert_eq!(bucket(15), 8);
    assert_eq!(bucket(16), 16);
    assert_eq!(bucket(31), 16);
    assert_eq!(bucket(32), 32);
    assert_eq!(bucket(127), 32);
    assert_eq!(bucket(128), 128);
    assert_eq!(bucket(255), 128);
}

#[test]
fn rotate_reports_changed_buckets_and_zeroes_current() {
    let mut current = vec![0u8; EDGE_MAP_SIZE];
    let mut previous = vec![0u8; EDGE_MAP_SIZE];
    current[3] = 5; // bucket 4
    current[10] = 1; // bucket 1
    previous[10] = 1; // unchanged after bucketing
    previous[20] = 2; // disappears: current is zero there

    let delta = rotate_and_diff(&mut current, &mut previous);

    assert_eq!(delta, vec![(3, 4), (20, 0)]);
    assert!(current.iter().all(|&c| c == 0));
    assert_eq!(previous[3], 4);
    assert_eq!(previous[10], 1);
    assert_eq!(previous[20], 0);
    let allowed = [0u8, 1, 2, 3, 4, 8, 16, 32, 128];
    assert!(previous.iter().all(|b| allowed.contains(b)));
}

#[test]
fn transition_hash_null_on_all_zero() {
    let previous = vec![0u8; EDGE_MAP_SIZE];
    assert_eq!(transition_hash(&previous), None);
}

#[test]
fn transition_hash_single_edge_is_its_mixed_index() {
    // With exactly one non-zero edge, every bit accumulator carries the
    // sign of that edge's hash bit, so the SimHash is the hash itself.
    let mut previous = vec![0u8; EDGE_MAP_SIZE];
    previous[5] = 1;
    assert_eq!(transition_hash(&previous), Some(mix64(5)));
}

#[test]
fn transition_hash_is_stable() {
    let mut previous = vec![0u8; EDGE_MAP_SIZE];
    previous[1] = 4;
    previous[100] = 128;
    previous[60000] = 2;
    assert_eq!(transition_hash(&previous), transition_hash(&previous));
}

#[test]
fn accumulate_keeps_max_bucket() {
    let mut edges = vec![0u8; EDGE_MAP_SIZE];
    edges[7] = 8;
    accumulate_coverage(&mut edges, &vec![(7, 4), (9, 2)]);
    assert_eq!(edges[7], 8, "a smaller bucket must not overwrite a larger one");
    assert_eq!(edges[9], 2);
    accumulate_coverage(&mut edges, &vec![(7, 128)]);
    assert_eq!(edges[7], 128);
}
