use vaultkey::error::VaultError;
use vaultkey::tag::{Tag, TagMap};

#[test]
fn tag_parse_splits_at_first_equals_and_trims() {
    let t = Tag::parse(" env = prod=1 ").unwrap();
    assert_eq!(t.key, "env");
    assert_eq!(t.value, "prod=1");
}

#[test]
fn tag_parse_errors() {
    match Tag::parse("novalue") {
        Err(VaultError::InvalidInput(m)) => assert_eq!(m, "Invalid tag format 'novalue': expected key=value"),
        other => panic!("unexpected {:?}", other),
    }
    assert!(Tag::parse("=x").is_err());
    assert!(Tag::parse(" =x").is_ok());
}

#[test]
fn tag_text_roundtrip() {
    let t = Tag::new("team", "core");
    assert_eq!(t.to_string(), "team=core");
    assert_eq!(Tag::parse(&t.to_string()).unwrap(), t);
}

#[test]
fn tagmap_insert_contains_remove() {
    let mut m = TagMap::new();
    assert!(m.is_empty());
    m.insert(Tag::new("env", "prod"));
    m.insert(Tag::new("env", "eu"));
    m.insert(Tag::new("team", "core"));
    assert!(m.contains(&Tag::new("env", "eu")));
    assert!(!m.contains(&Tag::new("env", "us")));
    assert_eq!(m.get("env").unwrap(), &vec!["prod".to_string(), "eu".to_string()]);
    assert_eq!(m.len(), 3);
    let all: Vec<String> = m.all_tags().iter().map(|t| t.to_string()).collect();
    assert_eq!(all, vec!["env=prod", "env=eu", "team=core"]);
    assert!(m.remove("env"));
    assert!(!m.remove("env"));
    assert_eq!(m.len(), 1);
}

#[test]
fn inserts_give_back_every_tag() {
    let tags = [("env", "prod"), ("team", "core"), ("env", "prod"), ("env", "dev")];
    let mut m = TagMap::new();
    for (k, v) in tags {
        m.insert(Tag::new(k, v));
    }
    assert_eq!(m.len(), 4);
    assert!(!m.is_empty());
    let mut got: Vec<(String, String)> = m.all_tags().into_iter().map(|t| (t.key, t.value)).collect();
    let mut want: Vec<(String, String)> = tags.iter().map(|(k, v)| (k.to_string(), v.to_string())).collect();
    got.sort();
    want.sort();
    assert_eq!(got, want);
    for (k, v) in tags {
        assert!(m.contains(&Tag::new(k, v)));
    }
}
