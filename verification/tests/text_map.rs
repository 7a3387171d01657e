use mini_http::text_map::TextMap;

fn value<'a>(map: &'a TextMap, name: &str) -> Option<&'a str> {
    map.get(name).map(|v| v.as_str())
}

fn entries(map: &TextMap) -> Vec<(String, String)> {
    let mut all = Vec::new();
    for i in 0..map.len() {
        let (name, value) = map.entry(i).expect("an index below the length has an entry");
        all.push((name.clone(), value.clone()));
    }
    all
}

fn pair(name: &str, value: &str) -> (String, String) {
    (name.to_string(), value.to_string())
}

#[test]
fn new_map_is_empty() {
    let map = TextMap::new();
    assert_eq!(map.len(), 0);
    assert_eq!(value(&map, "a"), None);
    assert_eq!(value(&map, ""), None);
    assert!(!map.contains_key("a"));
}

#[test]
fn insert_then_get() {
    let mut map = TextMap::new();
    map.insert("Host".to_string(), "example.org".to_string());
    assert_eq!(map.len(), 1);
    assert_eq!(value(&map, "Host"), Some("example.org"));
    assert!(map.contains_key("Host"));
    assert_eq!(value(&map, "host"), None);
    assert_eq!(value(&map, "Hos"), None);
    assert_eq!(value(&map, "Host "), None);
}

#[test]
fn insert_replaces_the_value_of_a_name() {
    let mut map = TextMap::new();
    map.insert("a".to_string(), "1".to_string());
    map.insert("b".to_string(), "2".to_string());
    map.insert("a".to_string(), "3".to_string());
    assert_eq!(map.len(), 2);
    assert_eq!(value(&map, "a"), Some("3"));
    assert_eq!(value(&map, "b"), Some("2"));
}

#[test]
fn entries_keep_the_order_of_first_insertion() {
    let mut map = TextMap::new();
    map.insert("z".to_string(), "1".to_string());
    map.insert("a".to_string(), "2".to_string());
    map.insert("m".to_string(), "3".to_string());
    map.insert("a".to_string(), "4".to_string());
    assert_eq!(entries(&map), vec![pair("z", "1"), pair("a", "4"), pair("m", "3")]);
}

#[test]
fn no_entry_past_the_last() {
    let mut map = TextMap::new();
    assert!(map.entry(0).is_none());
    map.insert("a".to_string(), "1".to_string());
    assert!(map.entry(0).is_some());
    assert!(map.entry(1).is_none());
}

#[test]
fn empty_name_and_value_are_entries_too() {
    let mut map = TextMap::new();
    map.insert(String::new(), String::new());
    assert_eq!(map.len(), 1);
    assert_eq!(value(&map, ""), Some(""));
    map.insert(String::new(), "x".to_string());
    assert_eq!(map.len(), 1);
    assert_eq!(value(&map, ""), Some("x"));
}

#[test]
fn names_are_compared_by_character() {
    let mut map = TextMap::new();
    map.insert("caf\u{e9}".to_string(), "1".to_string());
    map.insert("cafe\u{301}".to_string(), "2".to_string());
    assert_eq!(map.len(), 2);
    assert_eq!(value(&map, "caf\u{e9}"), Some("1"));
    assert_eq!(value(&map, "cafe\u{301}"), Some("2"));
}
