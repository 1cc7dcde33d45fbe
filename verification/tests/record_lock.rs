use linux_object::record_lock::{
    conflicts, getlk, prune_dead, ranges_overlap, setlk, subtract, Held, LockRequest, LockTable,
    F_RDLCK, F_WRLCK,
};

fn req(exclusive: bool, start: u64, end: u64, owner: u64) -> LockRequest {
    LockRequest { exclusive, start, end, owner }
}

fn held(exclusive: bool, start: u64, end: u64, owner: u64) -> Held {
    Held { exclusive, start, end, owner }
}

#[test]
fn read_locks_share_write_locks_exclude() {
    let shared = held(false, 0, 100, 1);
    let exclusive = held(true, 0, 100, 1);
    assert!(!conflicts(&exclusive, &req(true, 0, 100, 1)));
    assert!(!conflicts(&shared, &req(false, 0, 100, 2)));
    assert!(conflicts(&shared, &req(true, 0, 100, 2)));
    assert!(conflicts(&exclusive, &req(false, 0, 100, 2)));
    assert!(!conflicts(&exclusive, &req(true, 100, 200, 2)));
}

#[test]
fn subtract_splits_middle_and_trims_edges() {
    let h = held(true, 10, 50, 1);
    let pieces = subtract(&h, 20, 30);
    assert_eq!(pieces.len(), 2);
    assert_eq!((pieces[0].start, pieces[0].end), (10, 20));
    assert_eq!((pieces[1].start, pieces[1].end), (30, 50));
    let pieces = subtract(&h, 0, 20);
    assert_eq!(pieces.len(), 1);
    assert_eq!((pieces[0].start, pieces[0].end), (20, 50));
    assert!(subtract(&h, 0, 100).is_empty());
    let pieces = subtract(&h, 50, 60);
    assert_eq!(pieces.len(), 1);
    assert_eq!((pieces[0].start, pieces[0].end), (10, 50));
}

#[test]
fn unbounded_ranges_use_u64_max_end() {
    let h = held(true, 100, u64::MAX, 1);
    assert!(conflicts(&h, &req(false, 1000, 1001, 2)));
    assert!(!conflicts(&h, &req(true, 0, 100, 2)));
}

#[test]
fn ranges_meet_only_where_they_share_a_byte() {
    assert!(ranges_overlap(0, 10, 9, 20));
    assert!(!ranges_overlap(0, 10, 10, 20));
}

#[test]
fn a_lock_is_kept_per_file() {
    let mut t = LockTable::new();
    let alive = [1, 2];
    assert!(setlk(&mut t, (1, 7), &req(true, 0, 100, 1), false, &alive));
    assert!(!setlk(&mut t, (1, 7), &req(true, 50, 60, 2), false, &alive));
    assert!(setlk(&mut t, (1, 8), &req(true, 50, 60, 2), false, &alive));
    let c = getlk(&mut t, (1, 7), &req(false, 10, 20, 2), &alive).unwrap();
    assert_eq!((c.type_, c.start, c.len, c.pid), (F_WRLCK, 0, 100, 1));
    assert!(getlk(&mut t, (1, 7), &req(false, 100, 120, 2), &alive).is_none());
    assert!(getlk(&mut t, (9, 9), &req(true, 0, 1, 2), &alive).is_none());
}

#[test]
fn unlocking_the_middle_leaves_the_rest() {
    let mut t = LockTable::new();
    let alive = [1, 2];
    assert!(setlk(&mut t, (0, 1), &req(true, 0, 100, 1), false, &alive));
    assert!(setlk(&mut t, (0, 1), &req(true, 40, 60, 1), true, &alive));
    assert!(getlk(&mut t, (0, 1), &req(true, 40, 60, 2), &alive).is_none());
    let low = getlk(&mut t, (0, 1), &req(true, 0, 50, 2), &alive).unwrap();
    assert_eq!((low.start, low.len), (0, 40));
    let high = getlk(&mut t, (0, 1), &req(true, 50, 70, 2), &alive).unwrap();
    assert_eq!((high.start, high.len), (60, 40));
}

#[test]
fn an_upgrade_replaces_the_owners_lock() {
    let mut t = LockTable::new();
    let alive = [1, 2];
    assert!(setlk(&mut t, (0, 1), &req(false, 0, 100, 1), false, &alive));
    assert!(setlk(&mut t, (0, 1), &req(true, 0, 10, 1), false, &alive));
    let c = getlk(&mut t, (0, 1), &req(true, 50, 60, 2), &alive).unwrap();
    assert_eq!(c.type_, F_RDLCK);
    let c = getlk(&mut t, (0, 1), &req(false, 5, 6, 2), &alive).unwrap();
    assert_eq!(c.type_, F_WRLCK);
}

#[test]
fn locks_of_the_dead_do_not_count() {
    let mut t = LockTable::new();
    assert!(setlk(&mut t, (0, 1), &req(true, 0, u64::MAX, 1), false, &[1, 2]));
    let c = getlk(&mut t, (0, 1), &req(true, 5, 6, 2), &[1, 2]).unwrap();
    assert_eq!((c.start, c.len), (0, 0));
    assert!(getlk(&mut t, (0, 1), &req(true, 5, 6, 2), &[2]).is_none());
    assert!(setlk(&mut t, (0, 1), &req(true, 5, 6, 2), false, &[2]));
    let mut locks = vec![held(true, 0, 1, 3), held(true, 1, 2, 4)];
    prune_dead(&mut locks, &[4]);
    assert_eq!(locks, vec![held(true, 1, 2, 4)]);
}
