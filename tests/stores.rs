use highlights::notification::{Ledger, LedgerError, Notification};
use highlights::user_state::{UserState, UserStateError, UserStateKind, UserStates};

fn note(original: u64, sent: u64, keyword: &str, user: u64) -> Notification {
    Notification {
        original_message: original,
        notification_message: sent,
        keyword: keyword.to_string(),
        user_id: user,
    }
}

fn ids(v: &[Notification]) -> Vec<u64> {
    v.iter().map(|n| n.notification_message).collect()
}

fn filled() -> Ledger {
    let mut l = Ledger::new();
    note(1, 10, "rust", 7).insert(&mut l).unwrap();
    note(2, 20, "verus", 8).insert(&mut l).unwrap();
    note(1, 11, "proof", 9).insert(&mut l).unwrap();
    l
}

#[test]
fn notifications_of_message_in_insertion_order() {
    let l = filled();
    let r = Notification::notifications_of_message(&l, 1);
    assert_eq!(ids(&r), vec![10, 11]);
    assert_eq!(r[1].keyword, "proof");
    assert_eq!(r[1].user_id, 9);
    assert!(Notification::notifications_of_message(&l, 3).is_empty());
}

#[test]
fn duplicate_notification_is_refused() {
    let mut l = filled();
    assert_eq!(
        note(5, 20, "x", 1).insert(&mut l),
        Err(LedgerError::DuplicateNotification(20))
    );
    assert_eq!(ids(&Notification::notifications_of_message(&l, 5)), Vec::<u64>::new());
}

#[test]
fn bulk_retraction_removes_all_rows_of_the_source() {
    let mut l = filled();
    Notification::delete_notifications_of_message(&mut l, 1);
    assert!(Notification::notifications_of_message(&l, 1).is_empty());
    assert_eq!(ids(&Notification::notifications_of_message(&l, 2)), vec![20]);
}

#[test]
fn single_retraction_leaves_siblings() {
    let mut l = filled();
    note(1, 10, "rust", 7).delete(&mut l);
    assert_eq!(ids(&Notification::notifications_of_message(&l, 1)), vec![11]);
    assert_eq!(ids(&Notification::notifications_of_message(&l, 2)), vec![20]);
    note(1, 10, "rust", 7).delete(&mut l);
    assert_eq!(ids(&Notification::notifications_of_message(&l, 1)), vec![11]);
}

#[test]
fn user_state_upsert_and_clear() {
    let mut s = UserStates::new();
    assert_eq!(UserState::user_state(&s, 4), None);
    assert!(s.can_dm(4));
    UserState { user_id: 4, state: UserStateKind::CannotDm }.set(&mut s);
    UserState { user_id: 4, state: UserStateKind::CannotDm }.set(&mut s);
    assert_eq!(
        UserState::user_state(&s, 4),
        Some(UserState { user_id: 4, state: UserStateKind::CannotDm })
    );
    assert!(!s.can_dm(4));
    assert!(s.can_dm(5));
    UserState::clear(&mut s, 4);
    assert_eq!(UserState::user_state(&s, 4), None);
    UserState { user_id: 6, state: UserStateKind::CannotDm }.set(&mut s);
    UserState { user_id: 6, state: UserStateKind::CannotDm }.delete(&mut s);
    assert!(s.can_dm(6));
}

#[test]
fn unknown_state_code_is_refused() {
    assert_eq!(
        UserState::from_row(3, 0),
        Ok(UserState { user_id: 3, state: UserStateKind::CannotDm })
    );
    assert_eq!(UserState::from_row(3, 1), Err(UserStateError::UnknownState(1)));
    assert_eq!(UserState::from_row(3, -1), Err(UserStateError::UnknownState(-1)));
    assert_eq!(UserStateKind::CannotDm.code(), 0);
}
