use tagstore::error::StoreError;
use tagstore::strmap::StrMap;
use tagstore::tag::{
    scope_of, tag_dict_at, to_tag_dict, valid_nonspace_tag_char, valid_tag_char,
    validate_tag_name, validate_tag_value, TagValue, Tags, Timestamp,
};

fn reason_of(r: Result<(), StoreError>) -> (String, String) {
    match r {
        Err(StoreError::InvalidTag { tag, reason }) => (tag, reason),
        other => panic!("expected an invalid tag, got {:?}", other),
    }
}

#[test]
fn plain_names_are_accepted() {
    assert!(validate_tag_name("abc").is_ok());
    assert!(validate_tag_name("a_b:c.d9").is_ok());
    assert!(validate_tag_name("Z").is_ok());
    assert!(validate_tag_name("0").is_ok());
    assert!(validate_tag_name("name with spaces").is_ok());
}

#[test]
fn first_character_exceptions_are_accepted() {
    assert!(validate_tag_name("@scope.rest").is_ok());
    assert!(validate_tag_name("#literal").is_ok());
    assert!(validate_tag_name("@").is_ok());
}

#[test]
fn at_sign_is_refused_after_the_first_place() {
    let (tag, reason) = reason_of(validate_tag_name("a@b"));
    assert_eq!(tag, "a@b");
    assert_eq!(reason, "invalid tag");
    assert!(validate_tag_name("a#b").is_err());
}

#[test]
fn empty_name_is_refused() {
    let (tag, reason) = reason_of(validate_tag_name(""));
    assert_eq!(tag, "");
    assert_eq!(reason, "empty tag");
}

#[test]
fn leading_space_is_refused() {
    let (tag, reason) = reason_of(validate_tag_name(" abc"));
    assert_eq!(tag, " abc");
    assert_eq!(reason, "invalid tag");
}

#[test]
fn punctuation_is_refused() {
    assert_eq!(reason_of(validate_tag_name("a!b")).1, "invalid tag");
    assert_eq!(reason_of(validate_tag_name("a-b")).1, "invalid tag");
    assert_eq!(reason_of(validate_tag_name("!")).1, "invalid tag");
}

#[test]
fn name_length_boundary() {
    let ok = "a".repeat(200);
    assert!(validate_tag_name(&ok).is_ok());
    let long = "a".repeat(201);
    let (tag, reason) = reason_of(validate_tag_name(&long));
    assert_eq!(tag, long);
    assert_eq!(reason, "tag too long");
}

#[test]
fn name_length_counts_characters() {
    let ok = "\u{e9}".repeat(200);
    assert!(validate_tag_name(&ok).is_ok());
    let long = "\u{e9}".repeat(201);
    assert_eq!(reason_of(validate_tag_name(&long)).1, "tag too long");
}

#[test]
fn invalid_character_is_reported_before_length() {
    let long = format!("{}!", "a".repeat(300));
    assert_eq!(reason_of(validate_tag_name(&long)).1, "invalid tag");
}

#[test]
fn special_glyphs_are_plain() {
    assert!(valid_nonspace_tag_char('\u{b7}'));
    assert!(valid_nonspace_tag_char('\u{ff1a}'));
    assert!(valid_nonspace_tag_char('_'));
    assert!(valid_nonspace_tag_char(':'));
    assert!(valid_nonspace_tag_char('.'));
    assert!(valid_nonspace_tag_char('x'));
    assert!(valid_nonspace_tag_char('7'));
    assert!(valid_nonspace_tag_char('\u{4e2d}'));
    assert!(!valid_nonspace_tag_char(' '));
    assert!(!valid_nonspace_tag_char('@'));
    assert!(!valid_nonspace_tag_char('-'));
    assert!(valid_tag_char(' '));
    assert!(valid_tag_char('a'));
    assert!(!valid_tag_char('#'));
    assert!(validate_tag_name("a\u{b7}b\u{ff1a}c").is_ok());
}

#[test]
fn scope_of_scoped_name() {
    assert_eq!(scope_of("@team.x"), "@team");
    assert_eq!(scope_of("@team.settings"), "@team");
    assert_eq!(scope_of("@a.b.c"), "@a");
    assert_eq!(scope_of("@.x"), "@");
}

#[test]
fn scope_of_name_without_dot() {
    assert_eq!(scope_of("@solo"), "@solo");
    assert_eq!(scope_of("@"), "@");
}

#[test]
fn scope_of_plain_name() {
    assert_eq!(scope_of("plain"), "");
    assert_eq!(scope_of("plain.with.dots"), "");
    assert_eq!(scope_of("#tag.x"), "");
    assert_eq!(scope_of(""), "");
}

#[test]
fn value_length_boundary() {
    let ok = "v".repeat(2000);
    assert!(validate_tag_value("t", Some(&ok)).is_ok());
    let long = "v".repeat(2001);
    let (tag, reason) = reason_of(validate_tag_value("t", Some(&long)));
    assert_eq!(tag, "t");
    assert_eq!(reason, "value too long");
}

#[test]
fn absent_and_empty_values_are_accepted() {
    assert!(validate_tag_value("t", None).is_ok());
    assert!(validate_tag_value("t", Some("")).is_ok());
}

#[test]
fn error_accessors() {
    let e = validate_tag_name("").unwrap_err();
    assert_eq!(e.tag().map(|t| t.as_str()), Some(""));
    assert_eq!(e.reason().as_str(), "empty tag");
}

#[test]
fn tag_value_new_keeps_its_parts() {
    let t = Timestamp { secs: 5, nanos: 6 };
    let v = TagValue::new(Some("x".to_string()), t);
    assert_eq!(v.value, Some("x".to_string()));
    assert_eq!(v.updated, t);
}

#[test]
fn tag_dict_at_stamps_every_value() {
    let mut tags: Tags = StrMap::new();
    tags.insert("a".to_string(), Some("1".to_string()));
    tags.insert("b".to_string(), None);
    let t = Timestamp { secs: 10, nanos: 20 };
    let dict = tag_dict_at(&tags, t);
    assert_eq!(dict.len(), 2);
    assert_eq!(dict.get(&"a".to_string()), Some(&TagValue::new(Some("1".to_string()), t)));
    assert_eq!(dict.get(&"b".to_string()), Some(&TagValue::new(None, t)));
}

#[test]
fn to_tag_dict_stamps_with_the_returned_time() {
    let mut tags: Tags = StrMap::new();
    tags.insert("a".to_string(), Some("1".to_string()));
    tags.insert("b".to_string(), Some("2".to_string()));
    let (now, dict) = to_tag_dict(tags);
    assert!(now.secs > 1_500_000_000);
    assert!(now.nanos < 2_000_000_000);
    assert_eq!(dict.get(&"a".to_string()).unwrap().updated, now);
    assert_eq!(dict.get(&"b".to_string()).unwrap().updated, now);
    assert_eq!(dict.get(&"b".to_string()).unwrap().value, Some("2".to_string()));
}

#[test]
fn str_map_keeps_one_entry_per_key() {
    let mut m: StrMap<Option<String>> = StrMap::new();
    assert!(m.is_empty());
    m.insert("k".to_string(), Some("1".to_string()));
    m.insert("k".to_string(), Some("2".to_string()));
    assert_eq!(m.len(), 1);
    assert_eq!(m.get(&"k".to_string()), Some(&Some("2".to_string())));
    assert!(m.contains_key(&"k".to_string()));
    assert!(m.remove(&"k".to_string()));
    assert!(!m.remove(&"k".to_string()));
    assert!(m.is_empty());
    assert_eq!(m.get(&"k".to_string()), None);
}

#[test]
fn clone_tags_copies_every_entry() {
    let mut tags: Tags = StrMap::new();
    tags.insert("a".to_string(), Some("1".to_string()));
    tags.insert("b".to_string(), None);
    let copy = tagstore::tag::clone_tags(&tags);
    assert_eq!(copy.len(), 2);
    assert_eq!(copy.get(&"a".to_string()), Some(&Some("1".to_string())));
    assert_eq!(copy.get(&"b".to_string()), Some(&None));
    assert_eq!(copy.find(&"b".to_string()), Some(1));
    assert_eq!(copy.find(&"z".to_string()), None);
}
