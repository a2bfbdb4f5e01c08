use build_critical_path::extract::{extract_critical_path, CriticalPathMap, CriticalPathNode};
use build_critical_path::signals::{ActionKey, NodeKey};

fn k(i: u64) -> NodeKey {
    NodeKey::ActionKey(ActionKey(i))
}

fn cp_insert(predecessors: &mut CriticalPathMap<i32>, key: u64, prev: Option<u64>, duration: u64) {
    predecessors.insert(
        k(key),
        CriticalPathNode {
            duration,
            value: Some(key as i32),
            prev: prev.map(k),
        },
    );
}

#[test]
fn empty_path() {
    let predecessors: CriticalPathMap<i32> = CriticalPathMap::new();
    assert_eq!(
        extract_critical_path(&predecessors),
        Vec::<(NodeKey, &Option<i32>, u64)>::new()
    );
}

#[test]
fn unit_path() {
    let mut predecessors: CriticalPathMap<i32> = CriticalPathMap::new();
    cp_insert(&mut predecessors, 1, None, 3);
    assert_eq!(
        extract_critical_path(&predecessors),
        vec![(k(1), &Some(1), 3)],
    );
}

#[test]
fn long_path() {
    let mut predecessors: CriticalPathMap<i32> = CriticalPathMap::new();
    /*   -> 1 -> 2 -> 3
     *   5    6    7
     *
     *      1 -> 4
     *        9
     */
    cp_insert(&mut predecessors, 1, None, 5);
    cp_insert(&mut predecessors, 2, Some(1), 11);
    cp_insert(&mut predecessors, 3, Some(2), 18);
    cp_insert(&mut predecessors, 4, Some(1), 14);
    assert_eq!(
        extract_critical_path(&predecessors),
        vec![
            (k(1), &Some(1), 5),
            (k(2), &Some(2), 6),
            (k(3), &Some(3), 7),
        ],
    );
}

#[test]
fn overwrite_keeps_latest_record() {
    let mut predecessors: CriticalPathMap<i32> = CriticalPathMap::new();
    cp_insert(&mut predecessors, 1, None, 3);
    cp_insert(&mut predecessors, 1, None, 9);
    assert_eq!(
        extract_critical_path(&predecessors),
        vec![(k(1), &Some(1), 9)],
    );
}

#[test]
fn cumulative_differences_saturate_at_zero() {
    let mut predecessors: CriticalPathMap<i32> = CriticalPathMap::new();
    // A chain whose cumulative values dip in the middle: the difference
    // clamps to zero instead of underflowing.
    cp_insert(&mut predecessors, 1, None, 10);
    cp_insert(&mut predecessors, 2, Some(1), 4);
    cp_insert(&mut predecessors, 3, Some(2), 12);
    assert_eq!(
        extract_critical_path(&predecessors),
        vec![
            (k(1), &Some(1), 10),
            (k(2), &Some(2), 0),
            (k(3), &Some(3), 8),
        ],
    );
}
