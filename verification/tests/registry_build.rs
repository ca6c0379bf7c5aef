use publications::model::Author;
use publications::registry::Registry;

fn author(name: &str, url: &str) -> Author {
    Author {
        name: name.to_string(),
        url: url.to_string(),
    }
}

#[test]
fn empty_registry_builds() {
    let reg = Registry::build(Vec::new()).unwrap();
    assert!(reg.lookup(&"A".to_string()).is_none());
}

#[test]
fn lookup_finds_known_names_only() {
    let reg = Registry::build(vec![
        author("A", "https://a.example"),
        author("B", "https://b.example"),
    ])
    .unwrap();
    assert_eq!(reg.lookup(&"A".to_string()), Some(&"https://a.example".to_string()));
    assert_eq!(reg.lookup(&"B".to_string()), Some(&"https://b.example".to_string()));
    assert_eq!(reg.lookup(&"C".to_string()), None);
}

#[test]
fn duplicate_name_is_rejected() {
    let err = Registry::build(vec![author("A", "u1"), author("A", "u2")]).unwrap_err();
    assert_eq!(err.name, "A");
}

#[test]
fn first_repeated_name_is_reported() {
    let err = Registry::build(vec![
        author("A", "u1"),
        author("B", "u2"),
        author("B", "u3"),
        author("A", "u4"),
    ])
    .unwrap_err();
    assert_eq!(err.name, "B");
}
