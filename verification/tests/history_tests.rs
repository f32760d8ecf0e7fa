use ushell::history::{History, LRUHistory, NoHistory};

fn back<const C: usize, const N: usize>(h: &mut LRUHistory<C, N>) -> Option<String> {
    h.go_back()
}

#[test]
fn history_back_returns_in_reverse_push_order() {
    let mut h = LRUHistory::<16, 8>::default();
    assert!(h.push("one").is_ok());
    assert!(h.push("two").is_ok());
    assert!(h.push("three").is_ok());
    assert_eq!(back(&mut h).as_deref(), Some("three"));
    assert_eq!(back(&mut h).as_deref(), Some("two"));
    assert_eq!(back(&mut h).as_deref(), Some("one"));
    assert_eq!(back(&mut h), None);
}

#[test]
fn history_forward_walks_back_toward_newest() {
    let mut h = LRUHistory::<16, 8>::default();
    assert!(h.push("one").is_ok());
    assert!(h.push("two").is_ok());
    assert!(h.push("three").is_ok());
    while h.go_back().is_some() {}
    assert_eq!(h.go_forward().as_deref(), Some("one"));
    assert_eq!(h.go_forward().as_deref(), Some("two"));
    assert_eq!(h.go_forward().as_deref(), Some("three"));
    assert_eq!(h.go_forward(), None);
}

#[test]
fn history_evicts_oldest_beyond_capacity() {
    let mut h = LRUHistory::<16, 2>::default();
    assert!(h.push("one").is_ok());
    assert!(h.push("two").is_ok());
    assert!(h.push("three").is_ok());
    assert_eq!(back(&mut h).as_deref(), Some("three"));
    assert_eq!(back(&mut h).as_deref(), Some("two"));
    assert_eq!(back(&mut h), None);
}

#[test]
fn history_dedups_repeated_submission() {
    let mut h = LRUHistory::<16, 8>::default();
    assert!(h.push("pwd").is_ok());
    assert!(h.push("pwd").is_ok());
    assert_eq!(back(&mut h).as_deref(), Some("pwd"));
    assert_eq!(back(&mut h), None);
}

#[test]
fn history_duplicate_push_moves_entry_to_front() {
    let mut h = LRUHistory::<16, 8>::default();
    assert!(h.push("one").is_ok());
    assert!(h.push("two").is_ok());
    assert!(h.push("one").is_ok());
    assert_eq!(back(&mut h).as_deref(), Some("one"));
    assert_eq!(back(&mut h).as_deref(), Some("two"));
    assert_eq!(back(&mut h), None);
}

#[test]
fn history_push_resets_traversal_position() {
    let mut h = LRUHistory::<16, 8>::default();
    assert!(h.push("one").is_ok());
    assert!(h.push("two").is_ok());
    assert_eq!(back(&mut h).as_deref(), Some("two"));
    assert!(h.push("three").is_ok());
    assert_eq!(back(&mut h).as_deref(), Some("three"));
}

#[test]
fn history_rejects_line_longer_than_entry_capacity() {
    let mut h = LRUHistory::<4, 4>::default();
    assert!(h.push("abcdef").is_err());
    assert_eq!(back(&mut h), None);
}

#[test]
fn history_ignores_empty_line() {
    let mut h = LRUHistory::<16, 4>::default();
    assert!(h.push("").is_ok());
    assert_eq!(back(&mut h), None);
}

#[test]
fn history_zero_capacity_stores_nothing() {
    let mut h = LRUHistory::<16, 0>::default();
    assert!(h.push("one").is_ok());
    assert_eq!(back(&mut h), None);
}

#[test]
fn history_reset_clears_entries_and_position() {
    let mut h = LRUHistory::<16, 4>::default();
    assert!(h.push("one").is_ok());
    h.reset();
    assert_eq!(back(&mut h), None);
}

#[test]
fn no_history_answers_every_call_as_noop() {
    let mut h = NoHistory;
    assert!(h.push("one").is_ok());
    assert_eq!(h.go_back(), None);
    assert_eq!(h.go_forward(), None);
    h.reset();
    assert_eq!(h.go_back(), None);
}
