use nt_search::dashboard::App;
use nt_search::nt::{topic_update, value_update, ConnectionStatus, FeedEvent, NtUpdate};

fn value_of(app: &App, topic: &str) -> Option<String> {
    app.topic_values.iter().find(|(t, _)| t == topic).map(|(_, v)| v.clone())
}

fn kv(u: &Option<NtUpdate>) -> Option<(String, String)> {
    match u {
        Some(NtUpdate::KV(t, v)) => Some((t.clone(), v.clone())),
        _ => None,
    }
}

#[test]
fn announced_then_updated_gives_value_once() {
    let mut app = App::new();
    for e in [
        FeedEvent::Announced("robot/x".to_string()),
        FeedEvent::Updated("robot/x".to_string(), "3.2".to_string()),
    ] {
        if let Some(u) = value_update(e) {
            app.apply_update(u);
        }
    }
    assert_eq!(value_of(&app, "robot/x"), Some("3.2".to_string()));
    assert_eq!(app.available_topics.iter().filter(|t| *t == "robot/x").count(), 1);
}

#[test]
fn receive_error_does_not_stop_forwarding() {
    let events = vec![
        FeedEvent::Error("connection hiccup".to_string()),
        FeedEvent::Updated("robot/y".to_string(), "7".to_string()),
    ];
    let forwarded: Vec<NtUpdate> = events.into_iter().filter_map(value_update).collect();
    assert_eq!(forwarded.len(), 1);
    assert_eq!(kv(&Some(forwarded[0].clone())), Some(("robot/y".to_string(), "7".to_string())));
}

#[test]
fn updated_value_is_trimmed() {
    let u = value_update(FeedEvent::Updated("t".to_string(), "  4.5 \n".to_string()));
    assert_eq!(kv(&u), Some(("t".to_string(), "4.5".to_string())));
}

#[test]
fn announced_forwards_unset_value() {
    let u = value_update(FeedEvent::Announced("a/b".to_string()));
    assert_eq!(kv(&u), Some(("a/b".to_string(), "None".to_string())));
    let u = topic_update(FeedEvent::Announced("a/b".to_string()));
    assert_eq!(kv(&u), Some(("a/b".to_string(), "None".to_string())));
}

#[test]
fn unannounced_and_other_are_not_forwarded() {
    assert!(value_update(FeedEvent::Unannounced("a".to_string())).is_none());
    assert!(value_update(FeedEvent::Other).is_none());
    assert!(topic_update(FeedEvent::Unannounced("a".to_string())).is_none());
    assert!(topic_update(FeedEvent::Updated("a".to_string(), "1".to_string())).is_none());
    assert!(topic_update(FeedEvent::Error("e".to_string())).is_none());
}

#[test]
fn same_update_twice_is_same_as_once() {
    let mut once = App::new();
    once.apply_update(NtUpdate::KV("/a".to_string(), "1".to_string()));
    let mut twice = App::new();
    twice.apply_update(NtUpdate::KV("/a".to_string(), "1".to_string()));
    twice.apply_update(NtUpdate::KV("/a".to_string(), "1".to_string()));
    assert_eq!(once.available_topics, twice.available_topics);
    assert_eq!(once.topic_values, twice.topic_values);
}

#[test]
fn later_value_replaces_earlier() {
    let mut app = App::new();
    app.apply_update(NtUpdate::KV("/a".to_string(), "1".to_string()));
    app.apply_update(NtUpdate::KV("/b".to_string(), "2".to_string()));
    app.apply_update(NtUpdate::KV("/a".to_string(), "3".to_string()));
    assert_eq!(app.available_topics, vec!["/a".to_string(), "/b".to_string()]);
    assert_eq!(value_of(&app, "/a"), Some("3".to_string()));
    assert_eq!(app.topic_values.len(), 2);
}

#[test]
fn connection_status_update() {
    let mut app = App::new();
    assert_eq!(app.connection_status, ConnectionStatus::Disconnected);
    app.apply_update(NtUpdate::ConnectionStatus(ConnectionStatus::Connected));
    assert_eq!(app.connection_status, ConnectionStatus::Connected);
    assert!(app.available_topics.is_empty());
}

#[test]
fn trim_removes_unicode_white_space() {
    let u = value_update(FeedEvent::Updated("t".to_string(), "\u{3000}\tx y\u{85}\u{2028}".to_string()));
    assert_eq!(kv(&u), Some(("t".to_string(), "x y".to_string())));
}

#[test]
fn batch_applies_last_connection_status() {
    let mut app = App::new();
    app.apply_updates(&vec![
        NtUpdate::ConnectionStatus(ConnectionStatus::Connected),
        NtUpdate::KV("/a".to_string(), "1".to_string()),
        NtUpdate::ConnectionStatus(ConnectionStatus::Disconnected),
        NtUpdate::ConnectionStatus(ConnectionStatus::Connected),
    ]);
    assert_eq!(app.connection_status, ConnectionStatus::Connected);
    assert_eq!(app.available_topics, vec!["/a".to_string()]);
}
