use highlights::matcher::{keyword_candidates, IncomingMessage, Keyword};
use highlights::monitoring::{Timer, TimerType};
use highlights::notification::{Ledger, Notification};
use highlights::payload::{compose_notification, decimal, message_link, notification_title};
use highlights::settings::{BehaviorSettings, DEFAULT_PATIENCE_SECONDS};
use highlights::user_state::{UserState, UserStateKind, UserStates};
use highlights::watch::{Candidate, Watch, WatchAction, WatchEvent, WatchState};

fn message(author: u64, content: &str) -> IncomingMessage {
    IncomingMessage {
        id: 900,
        author_id: author,
        channel_id: 50,
        guild_id: 5,
        timestamp: 1_600_000_000,
        content: content.to_string(),
    }
}

fn kw(word: &str, user: u64, server: u64) -> Keyword {
    Keyword { keyword: word.to_string(), user_id: user, server_id: server }
}

fn users(v: &[Keyword]) -> Vec<u64> {
    v.iter().map(|k| k.user_id).collect()
}

#[test]
fn author_never_matches_own_keywords() {
    let keywords = vec![kw("rust", 1, 5), kw("rust", 2, 5)];
    let r = keyword_candidates(&message(1, "I like Rust"), &keywords, &UserStates::new());
    assert_eq!(users(&r), vec![2]);
}

#[test]
fn matching_is_scoped_and_case_insensitive() {
    let keywords = vec![kw("RUST", 2, 5), kw("rust", 3, 6), kw("go", 4, 5), kw("", 8, 5)];
    let r = keyword_candidates(&message(1, "trusty"), &keywords, &UserStates::new());
    assert_eq!(users(&r), vec![2, 8]);
}

#[test]
fn cannot_dm_drops_and_clearing_restores() {
    let keywords = vec![kw("rust", 2, 5), kw("rust", 3, 5)];
    let mut states = UserStates::new();
    UserState { user_id: 2, state: UserStateKind::CannotDm }.set(&mut states);
    let m = message(1, "rust!");
    assert_eq!(users(&keyword_candidates(&m, &keywords, &states)), vec![3]);
    UserState::clear(&mut states, 2);
    assert_eq!(users(&keyword_candidates(&m, &keywords, &states)), vec![2, 3]);
}

fn candidate() -> Candidate {
    Candidate::new(&message(1, "rust"), &kw("rust", 2, 5))
}

#[test]
fn follow_up_before_timeout_suppresses() {
    let mut w = Watch::start(candidate(), 0, 2000);
    let a = w.step(WatchEvent::MessageSeen { author_id: 1, channel_id: 50, at: 1500 });
    assert!(matches!(a, WatchAction::Stop));
    assert_eq!(w.state, WatchState::Suppressed);
    assert!(matches!(w.step(WatchEvent::TimeElapsed { at: 2000 }), WatchAction::Stop));
    assert_eq!(w.state, WatchState::Suppressed);
}

#[test]
fn late_follow_up_has_no_effect() {
    let mut w = Watch::start(candidate(), 0, 2000);
    assert!(matches!(w.step(WatchEvent::TimeElapsed { at: 1999 }), WatchAction::Wait));
    assert!(matches!(w.step(WatchEvent::TimeElapsed { at: 2000 }), WatchAction::Deliver));
    assert_eq!(w.state, WatchState::Delivering);
    let a = w.step(WatchEvent::MessageSeen { author_id: 1, channel_id: 50, at: 2500 });
    assert!(matches!(a, WatchAction::Wait));
    assert_eq!(w.state, WatchState::Delivering);
}

#[test]
fn other_messages_do_not_disqualify() {
    let mut w = Watch::start(candidate(), 0, 2000);
    let a = w.step(WatchEvent::MessageSeen { author_id: 9, channel_id: 50, at: 10 });
    assert!(matches!(a, WatchAction::Wait));
    let a = w.step(WatchEvent::MessageSeen { author_id: 1, channel_id: 51, at: 10 });
    assert!(matches!(a, WatchAction::Wait));
    assert_eq!(w.state, WatchState::Watching { deadline: 2000 });
}

#[test]
fn delivery_records_exactly_one_row() {
    let mut w = Watch::start(candidate(), 100, 2000);
    assert!(matches!(w.step(WatchEvent::TimeElapsed { at: 2100 }), WatchAction::Deliver));
    let mut ledger = Ledger::new();
    match w.step(WatchEvent::DeliverySucceeded { notification_message: 77 }) {
        WatchAction::Record(n) => n.insert(&mut ledger).unwrap(),
        _ => panic!("expected a row to record"),
    }
    assert_eq!(w.state, WatchState::Delivered);
    assert!(matches!(
        w.step(WatchEvent::DeliverySucceeded { notification_message: 78 }),
        WatchAction::Stop
    ));
    let rows = Notification::notifications_of_message(&ledger, 900);
    assert_eq!(rows.len(), 1);
    assert_eq!(rows[0].notification_message, 77);
    assert_eq!(rows[0].keyword, "rust");
    assert_eq!(rows[0].user_id, 2);
}

#[test]
fn delivery_failure_is_reported() {
    let mut w = Watch::start(candidate(), 0, 10);
    w.step(WatchEvent::TimeElapsed { at: 10 });
    assert!(matches!(w.step(WatchEvent::DeliveryFailed), WatchAction::ReportError));
    assert_eq!(w.state, WatchState::Failed);
}

#[test]
fn decimal_rendering() {
    assert_eq!(decimal(0), "0");
    assert_eq!(decimal(7), "7");
    assert_eq!(decimal(1234567890), "1234567890");
    assert_eq!(decimal(u64::MAX), "18446744073709551615");
}

#[test]
fn link_and_title() {
    assert_eq!(message_link(1, 22, 333), "https://discord.com/channels/1/22/333");
    assert_eq!(
        notification_title("rust", "general", "Crabs"),
        "Keyword \"rust\" seen in #general (Crabs)"
    );
}

#[test]
fn composed_notification_falls_back_to_default_avatar() {
    let m = message(1, "rust");
    let c = candidate();
    let r = compose_notification(
        &c,
        &m,
        "> rust".to_string(),
        "general",
        "Crabs",
        "ferris".to_string(),
        None,
        "default.png".to_string(),
    );
    assert_eq!(r.link, "https://discord.com/channels/5/50/900");
    assert_eq!(r.title, "Keyword \"rust\" seen in #general (Crabs)");
    assert_eq!(r.author_avatar, "default.png");
    assert_eq!(r.timestamp, 1_600_000_000);
    let r = compose_notification(
        &c,
        &m,
        String::new(),
        "g",
        "G",
        "ferris".to_string(),
        Some("own.png".to_string()),
        "default.png".to_string(),
    );
    assert_eq!(r.author_avatar, "own.png");
}

#[test]
fn patience_settings() {
    let s = BehaviorSettings::defaults();
    assert_eq!(s.patience_seconds, DEFAULT_PATIENCE_SECONDS);
    assert_eq!(s.patience(), std::time::Duration::from_secs(120));
    assert_eq!(s.patience_millis(), Some(120_000));
    assert_eq!(BehaviorSettings::new(1, 2).patience_millis(), Some(2000));
    assert_eq!(BehaviorSettings::new(1, u64::MAX).patience_millis(), None);
}

#[test]
fn timers_know_what_they_measure() {
    let t = Timer::command("add");
    assert_eq!(t.kind(), TimerType::Command);
    assert_eq!(t.name(), "add");
    let q = Timer::query("user state");
    assert_eq!(q.kind(), TimerType::Query);
    assert!(q.start().elapsed().as_secs() < 60);
}

#[test]
fn channel_deletion_suppresses() {
    let mut w = Watch::start(candidate(), 0, 2000);
    assert!(matches!(w.step(WatchEvent::ChannelDeleted { channel_id: 51 }), WatchAction::Wait));
    assert!(matches!(w.step(WatchEvent::ChannelDeleted { channel_id: 50 }), WatchAction::Stop));
    assert_eq!(w.state, WatchState::Suppressed);
    assert!(matches!(w.step(WatchEvent::TimeElapsed { at: 5000 }), WatchAction::Stop));
}

#[test]
fn patience_is_the_configured_span() {
    assert_eq!(BehaviorSettings::new(1, 7).patience(), std::time::Duration::from_secs(7));
    assert_eq!(BehaviorSettings::new(1, 0).patience(), std::time::Duration::from_secs(0));
}
