use validator_cu::schedule::{resolve_slots, EpochInfo, LeaderSchedule, ResolveError};

fn schedule_of(entries: &[(&str, Vec<u64>)]) -> LeaderSchedule {
    let mut s = LeaderSchedule::new();
    for (id, offsets) in entries {
        s.insert(id.to_string(), offsets.clone());
    }
    s
}

#[test]
fn resolves_reached_slots_in_order() {
    let s = schedule_of(&[("V1", vec![5, 10, 15]), ("V2", vec![0, 1])]);
    let r = resolve_slots(&s, &"V1".to_string(), 1000, 1012).ok().unwrap();
    assert_eq!(r.slots, vec![1005, 1010]);
    assert_eq!(r.owed, 3);
}

#[test]
fn slot_equal_to_current_is_kept() {
    let s = schedule_of(&[("V1", vec![5, 10, 12])]);
    let r = resolve_slots(&s, &"V1".to_string(), 1000, 1012).ok().unwrap();
    assert_eq!(r.slots, vec![1005, 1010, 1012]);
}

#[test]
fn unknown_validator_is_not_found() {
    let s = schedule_of(&[("V1", vec![5, 10, 15])]);
    let r = resolve_slots(&s, &"V9".to_string(), 1000, 1012);
    assert!(matches!(r, Err(ResolveError::ValidatorNotFound)));
}

#[test]
fn empty_schedule_has_no_validator() {
    let s = LeaderSchedule::new();
    assert!(matches!(resolve_slots(&s, &"V1".to_string(), 0, 100), Err(ResolveError::ValidatorNotFound)));
}

#[test]
fn no_slot_reached_yet() {
    let s = schedule_of(&[("V1", vec![20, 30])]);
    let r = resolve_slots(&s, &"V1".to_string(), 1000, 1012).ok().unwrap();
    assert!(r.slots.is_empty());
    assert_eq!(r.owed, 2);
}

#[test]
fn current_before_epoch_start_reaches_nothing() {
    let s = schedule_of(&[("V1", vec![0, 1])]);
    let r = resolve_slots(&s, &"V1".to_string(), 1000, 999).ok().unwrap();
    assert!(r.slots.is_empty());
}

#[test]
fn large_offsets_do_not_overflow() {
    let s = schedule_of(&[("V1", vec![3, u64::MAX])]);
    let r = resolve_slots(&s, &"V1".to_string(), 10, u64::MAX).ok().unwrap();
    assert_eq!(r.slots, vec![13]);
}

#[test]
fn insert_replaces_offsets() {
    let mut s = schedule_of(&[("V1", vec![1]), ("V2", vec![2])]);
    s.insert("V1".to_string(), vec![7, 8]);
    assert_eq!(s.get(&"V1".to_string()), Some(&vec![7, 8]));
    assert_eq!(s.get(&"V2".to_string()), Some(&vec![2]));
    assert_eq!(s.get(&"V3".to_string()), None);
}

#[test]
fn epoch_first_slot() {
    let e = EpochInfo { epoch: 700, absolute_slot: 302_400_123, slot_index: 123 };
    assert_eq!(e.first_slot(), 302_400_000);
}

#[test]
fn repeated_offsets_resolve_once() {
    let s = schedule_of(&[("V1", vec![5, 10, 5, 10, 15])]);
    let r = resolve_slots(&s, &"V1".to_string(), 1000, 1012).ok().unwrap();
    assert_eq!(r.slots, vec![1005, 1010]);
    assert_eq!(r.owed, 5);
}

#[test]
fn repeated_offset_first_occurrence_keeps_order() {
    let s = schedule_of(&[("V1", vec![7, 3, 7])]);
    let r = resolve_slots(&s, &"V1".to_string(), 100, 200).ok().unwrap();
    assert_eq!(r.slots, vec![107, 103]);
}
