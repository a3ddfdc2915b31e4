use governance_core::checkpoint::{Checkpoint, Checkpoints, CheckpointsError};

#[test]
fn push_works() {
    let mut checkpoints = Checkpoints::default();

    let (last, value) = checkpoints.push(1, 1).unwrap();
    assert_eq!(last, 0);
    assert_eq!(value, 1);
    assert_eq!(checkpoints.len(), 1);
}

#[test]
fn lower_lookup_works() {
    let mut checkpoints = Checkpoints::default();
    checkpoints.push(1, 1).unwrap();
    checkpoints.push(2, 2).unwrap();
    checkpoints.push(5, 5).unwrap();
    assert_eq!(checkpoints.lower_lookup(0), Some(1));
    assert_eq!(checkpoints.lower_lookup(1), Some(1));
    assert_eq!(checkpoints.lower_lookup(2), Some(2));
    assert_eq!(checkpoints.lower_lookup(3), Some(5));
    assert_eq!(checkpoints.lower_lookup(5), Some(5));
    assert_eq!(checkpoints.lower_lookup(6), None);
}

#[test]
fn upper_lookup_works() {
    let mut checkpoints = Checkpoints::default();

    checkpoints.push(1, 1).unwrap();
    checkpoints.push(2, 2).unwrap();
    checkpoints.push(5, 5).unwrap();
    assert_eq!(checkpoints.upper_lookup(0), None);
    assert_eq!(checkpoints.upper_lookup(1), Some(1));
    assert_eq!(checkpoints.upper_lookup(2), Some(2));
    assert_eq!(checkpoints.upper_lookup(3), Some(2));
    assert_eq!(checkpoints.upper_lookup(5), Some(5));
    assert_eq!(checkpoints.upper_lookup(6), Some(5));
}

#[test]
fn upper_lookup_recent_works() {
    let mut checkpoints = Checkpoints::default();

    checkpoints.push(1, 1).unwrap();
    checkpoints.push(2, 2).unwrap();
    checkpoints.push(5, 5).unwrap();
    assert_eq!(checkpoints.upper_lookup_recent(0), None);
    assert_eq!(checkpoints.upper_lookup_recent(1), Some(1));
    assert_eq!(checkpoints.upper_lookup_recent(2), Some(2));
    assert_eq!(checkpoints.upper_lookup_recent(3), Some(2));
    assert_eq!(checkpoints.upper_lookup_recent(5), Some(5));
    assert_eq!(checkpoints.upper_lookup_recent(6), Some(5));
}

#[test]
fn latest_works() {
    let mut checkpoints = Checkpoints::default();
    assert_eq!(checkpoints.latest(), 0);
    checkpoints.push(1, 1).unwrap();
    checkpoints.push(2, 2).unwrap();
    checkpoints.push(5, 5).unwrap();
    assert_eq!(checkpoints.latest(), 5);
}

#[test]
fn latest_checkpoint_works() {
    let mut checkpoints = Checkpoints::default();
    assert_eq!(checkpoints.latest_checkpoint(), (false, 0, 0));
    checkpoints.push(1, 1).unwrap();
    checkpoints.push(2, 2).unwrap();
    checkpoints.push(5, 5).unwrap();
    assert_eq!(checkpoints.latest_checkpoint(), (true, 5, 5));
}

#[test]
fn len_works() {
    let mut checkpoints = Checkpoints::default();
    assert_eq!(checkpoints.len(), 0);
    checkpoints.push(1, 1).unwrap();
    checkpoints.push(2, 2).unwrap();
    checkpoints.push(5, 5).unwrap();
    assert_eq!(checkpoints.len(), 3);
}

#[test]
fn push_coalesces_equal_keys_and_rejects_older_ones() {
    let mut checkpoints = Checkpoints::new();
    checkpoints.push(3, 10).unwrap();
    let (last, value) = checkpoints.push(3, 20).unwrap();
    assert_eq!((last, value), (10, 20));
    assert_eq!(checkpoints.len(), 1);
    assert_eq!(checkpoints.latest(), 20);
    assert_eq!(checkpoints.push(2, 99), Err(CheckpointsError::UnorderedInsertion));
    assert_eq!(checkpoints.len(), 1);
    assert_eq!(checkpoints.latest(), 20);
}

#[test]
fn at_returns_stored_checkpoints_in_order() {
    let mut checkpoints = Checkpoints::new();
    checkpoints.push(1, 7).unwrap();
    checkpoints.push(4, 9).unwrap();
    assert_eq!(checkpoints.at(0), Some(&Checkpoint { key: 1, value: 7 }));
    assert_eq!(checkpoints.at(1), Some(&Checkpoint { key: 4, value: 9 }));
    assert_eq!(checkpoints.at(2), None);
}

#[test]
fn latest_follows_every_push_and_late_lookups_see_it() {
    let mut checkpoints = Checkpoints::new();
    let pushes: [(u32, u128); 6] = [(1, 5), (1, 6), (3, 1), (7, 0), (7, 2), (9, 40)];
    for (key, value) in pushes {
        checkpoints.push(key, value).unwrap();
        assert_eq!(checkpoints.latest(), value);
        assert_eq!(checkpoints.upper_lookup(key), Some(value));
        assert_eq!(checkpoints.upper_lookup(u32::MAX), Some(value));
    }
}

fn linear_upper(entries: &[(u32, u128)], key: u32) -> Option<u128> {
    entries.iter().rev().find(|(k, _)| *k <= key).map(|(_, v)| *v)
}

fn linear_lower(entries: &[(u32, u128)], key: u32) -> Option<u128> {
    entries.iter().find(|(k, _)| *k >= key).map(|(_, v)| *v)
}

#[test]
fn lookups_agree_with_linear_scan() {
    let mut entries: Vec<(u32, u128)> = Vec::new();
    for i in 0..150u32 {
        entries.push((2 * i + 1, (3 * i + 7) as u128));
    }
    for size in [0usize, 1, 2, 3, 17, 150] {
        let slice = &entries[..size];
        let mut checkpoints = Checkpoints::new();
        for (k, v) in slice {
            checkpoints.push(*k, *v).unwrap();
        }
        for key in 0..310u32 {
            assert_eq!(checkpoints.upper_lookup(key), linear_upper(slice, key));
            assert_eq!(checkpoints.lower_lookup(key), linear_lower(slice, key));
        }
    }
}

#[test]
fn upper_lookup_recent_matches_upper_lookup() {
    for size in [0usize, 1, 120] {
        let mut checkpoints = Checkpoints::new();
        for i in 0..size {
            checkpoints.push(3 * i as u32, (i as u128) * 11 + 1).unwrap();
        }
        for key in 0..400u32 {
            assert_eq!(
                checkpoints.upper_lookup_recent(key),
                checkpoints.upper_lookup(key),
                "diverged at key {key} with {size} entries"
            );
        }
        assert_eq!(checkpoints.upper_lookup_recent(u32::MAX), checkpoints.upper_lookup(u32::MAX));
    }
}
