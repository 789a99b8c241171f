use vaultkey::error::VaultError;
use vaultkey::notify::{
    build_test_event, channel_display, dispatch, matches_rule, parse_channel, store_path, NotifyChannel, NotifyEvent,
    NotifyRule, NotifyStore,
};

fn rule(event: &str, channel: NotifyChannel) -> NotifyRule {
    NotifyRule { event: event.to_string(), channel, filter: None }
}

#[test]
fn event_messages_and_kinds() {
    assert_eq!(NotifyEvent::SecretAccessed("db".into()).message(), "[ACCESS] Secret accessed: db");
    assert_eq!(NotifyEvent::QuotaExceeded("q".into()).message(), "[QUOTA] Quota exceeded: q");
    assert_eq!(NotifyEvent::BundleUnlocked("b".into()).kind(), "unlock");
}

#[test]
fn rules_match_kind_or_star() {
    let e = NotifyEvent::SecretRotated("k".into());
    assert!(matches_rule(&e, &rule("rotate", NotifyChannel::Stdout)));
    assert!(matches_rule(&e, &rule("*", NotifyChannel::Stdout)));
    assert!(!matches_rule(&e, &rule("access", NotifyChannel::Stdout)));
}

#[test]
fn dispatch_lists_channels_in_rule_order() {
    let rules = vec![
        rule("access", NotifyChannel::File("a.log".into())),
        rule("expire", NotifyChannel::Stdout),
        rule("*", NotifyChannel::Webhook("http://h".into())),
    ];
    let e = NotifyEvent::SecretAccessed("k".into());
    let targets = dispatch(&e, &rules);
    assert_eq!(targets, vec![&NotifyChannel::File("a.log".into()), &NotifyChannel::Webhook("http://h".into())]);
}

#[test]
fn store_add_remove_list() {
    let mut s = NotifyStore::default();
    s.add_rule("access", NotifyChannel::Stdout, None);
    s.add_rule("expire", NotifyChannel::Stdout, Some("db".into()));
    s.add_rule("access", NotifyChannel::File("x".into()), None);
    assert_eq!(s.remove_rules_for_event("access"), 2);
    assert_eq!(s.list().len(), 1);
    assert_eq!(s.list()[0].event, "expire");
    assert_eq!(s.remove_rules_for_event("none"), 0);
}

#[test]
fn channel_parsing_and_display() {
    assert_eq!(parse_channel("stdout", None).unwrap(), NotifyChannel::Stdout);
    assert_eq!(parse_channel("file", Some("p")).unwrap(), NotifyChannel::File("p".into()));
    match parse_channel("file", None) {
        Err(VaultError::Config(m)) => assert_eq!(m, "file target required"),
        other => panic!("unexpected {:?}", other),
    }
    match parse_channel("webhook", None) {
        Err(VaultError::Config(m)) => assert_eq!(m, "webhook url required"),
        other => panic!("unexpected {:?}", other),
    }
    match parse_channel("pager", None) {
        Err(VaultError::Config(m)) => assert_eq!(m, "unknown channel type: pager"),
        other => panic!("unexpected {:?}", other),
    }
    assert_eq!(channel_display(&NotifyChannel::Webhook("u".into())), ("webhook", "u".to_string()));
    assert_eq!(channel_display(&NotifyChannel::Stdout), ("stdout", String::new()));
    assert_eq!(store_path(), ".vaultkey/notify.toml");
}

#[test]
fn test_events() {
    assert_eq!(build_test_event("policy", "p").unwrap(), NotifyEvent::PolicyViolation("p".into()));
    match build_test_event("boom", "k") {
        Err(VaultError::Config(m)) => assert_eq!(m, "unknown event type: boom"),
        other => panic!("unexpected {:?}", other),
    }
}
