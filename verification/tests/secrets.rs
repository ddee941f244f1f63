use heimdall::json::Json;
use heimdall::secrets::{text_less, Secrets};
use heimdall::server::{visible, Actor};
use heimdall::store::Token;

fn map(entries: &[(&str, &str)]) -> Secrets {
    let mut s = Secrets::new();
    for (k, v) in entries {
        s.insert(k.to_string(), v.to_string());
    }
    s
}

fn token(keys: Option<Vec<&str>>) -> Actor {
    Actor::Token(Box::new(Token {
        id: "1".to_string(),
        name: "agente".to_string(),
        project: "bifrost".to_string(),
        env: "dev".to_string(),
        keys: keys.map(|k| k.into_iter().map(str::to_string).collect()),
        admin: false,
        created_at: 0,
        expires_at: None,
        last_used: None,
    }))
}

#[test]
fn entries_stay_sorted_and_unique() {
    let s = map(&[("B", "2"), ("A", "1"), ("B", "3")]);
    assert_eq!(s.len(), 2);
    assert_eq!(s.entry(0), ("A", "1"));
    assert_eq!(s.entry(1), ("B", "3"));
    assert_eq!(s.get("C"), None);
    assert!(text_less("A", "B"));
    assert!(text_less("A", "AB"));
    assert!(!text_less("b", "B"));
}

#[test]
fn a_limited_token_sees_only_its_names() {
    let s = map(&[("A", "1"), ("B", "2"), ("C", "3")]);
    let seen = visible(&token(Some(vec!["C", "A", "Z"])), s);
    assert_eq!(seen.names(), vec!["A".to_string(), "C".to_string()]);
    let all = visible(&token(None), map(&[("A", "1"), ("B", "2")]));
    assert_eq!(all.len(), 2);
    let admin = visible(&Actor::Admin, map(&[("A", "1")]));
    assert_eq!(admin.get("A"), Some("1"));
    let none = visible(&token(Some(vec![])), map(&[("A", "1")]));
    assert!(none.is_empty());
}

#[test]
fn secrets_become_a_json_object() {
    let j = map(&[("B", "2"), ("A", "1")]).to_json();
    match j {
        Json::Object(members) => {
            assert_eq!(members.len(), 2);
            assert_eq!(members[0].0, "A");
            assert!(matches!(&members[0].1, Json::Text(t) if t == "1"));
        }
        other => panic!("{other:?}"),
    }
    let only = map(&[("A", "1"), ("B", "2")]).only(&vec!["B".to_string()]);
    assert_eq!(only.names(), vec!["B".to_string()]);
}
