use osm_types::text::same_text;
use osm_types::{Tag, Tags};

fn tags(pairs: &[(&str, &str)]) -> Tags {
    let mut tags = Tags::new();
    for (key, value) in pairs {
        tags.insert(String::from(*key), String::from(*value));
    }
    tags
}

#[test]
fn tags_new_is_empty() {
    let tags = Tags::new();
    assert_eq!(tags.len(), 0);
    assert!(tags.is_empty());
    assert_eq!(tags.get("highway"), None);
    assert!(!tags.contains_key("highway"));
    assert!(!tags.contains_key(""));
}

#[test]
fn tags_insert_adds_a_key() {
    let tags = tags(&[("highway", "primary"), ("name", "Strand")]);
    assert_eq!(tags.len(), 2);
    assert!(!tags.is_empty());
    assert_eq!(tags.get("highway"), Some(&String::from("primary")));
    assert_eq!(tags.get("name"), Some(&String::from("Strand")));
    assert_eq!(tags.get("barrier"), None);
    assert!(tags.contains_key("name"));
    assert!(!tags.contains_key("Name"));
    assert!(!tags.contains_key("nam"));
    assert!(!tags.contains_key("names"));
}

#[test]
fn tags_insert_replaces_the_value_of_a_key() {
    let tags = tags(&[("highway", "primary"), ("name", "Strand"), ("highway", "footway")]);
    assert_eq!(tags.len(), 2);
    assert_eq!(tags.get("highway"), Some(&String::from("footway")));
    assert_eq!(tags.get("name"), Some(&String::from("Strand")));
}

#[test]
fn tags_take_empty_keys_and_values() {
    let tags = tags(&[("", "nothing"), ("note", "")]);
    assert_eq!(tags.len(), 2);
    assert_eq!(tags.get(""), Some(&String::from("nothing")));
    assert_eq!(tags.get("note"), Some(&String::new()));
}

#[test]
fn tags_by_index_go_through_all_of_them() {
    let tags = tags(&[("a", "1"), ("b", "2"), ("a", "3"), ("c", "4")]);
    assert_eq!(tags.len(), 3);
    let mut seen: Vec<(String, String)> = Vec::new();
    let mut index = 0;
    while index < tags.len() {
        let Tag { key, value } = tags.get_index(index).unwrap();
        assert_eq!(tags.get(key), Some(value));
        seen.push((key.clone(), value.clone()));
        index += 1;
    }
    assert!(tags.get_index(tags.len()).is_none());
    assert!(tags.get_index(usize::MAX).is_none());
    seen.sort();
    assert_eq!(
        seen,
        vec![
            (String::from("a"), String::from("3")),
            (String::from("b"), String::from("2")),
            (String::from("c"), String::from("4")),
        ]
    );
}

#[test]
fn tags_keys_are_compared_by_content() {
    let tags = tags(&[("straße", "ja"), ("strasse", "nein")]);
    assert_eq!(tags.len(), 2);
    assert_eq!(tags.get("straße"), Some(&String::from("ja")));
    assert_eq!(tags.get("strasse"), Some(&String::from("nein")));
}

#[test]
fn same_text_compares_content() {
    assert!(same_text("", ""));
    assert!(same_text("highway", "highway"));
    assert!(!same_text("highway", "highwaz"));
    assert!(!same_text("highway", "highwa"));
    assert!(!same_text("highway", "Highway"));
    assert!(!same_text("", "a"));
    assert!(same_text("日本", "日本"));
    assert!(!same_text("日本", "日木"));
}
