use emotebot::query::{
    category_page_aliases, create_category_query, create_channel_query, create_id_query,
    create_keyed_alias, create_name_query, create_page_alias, LookupKind,
};

#[test]
fn category_query_is_deterministic() {
    let a = create_category_query(2, "TOP", 3);
    let b = create_category_query(2, "TOP", 3);
    assert_eq!(a, b);
    assert_ne!(a, create_category_query(2, "TOP", 4));
}

#[test]
fn category_query_asks_for_pages_after_offset() {
    let q = create_category_query(2, "TOP", 3);
    assert!(q.starts_with("query {"));
    assert!(q.ends_with("}"));
    assert!(q.contains("page4: emotes(query: \"\", page: 4, limit: 300, filter: {category: TOP,"));
    assert!(q.contains("page5: emotes(query: \"\", page: 5,"));
    assert!(!q.contains("page3:"));
    assert!(!q.contains("page6:"));
    assert_eq!(q.matches("items {").count(), 2);
}

#[test]
fn category_query_without_pages_is_empty_document() {
    assert_eq!(create_category_query(0, "TOP", 0), "query {}");
}

#[test]
fn category_query_at_largest_offset() {
    let q = create_category_query(1, "TOP", u32::MAX);
    assert!(q.contains("page4294967296:"));
}

#[test]
fn name_query_uses_positional_aliases_and_escapes() {
    let names = vec!["foo".to_string(), "a\"b\\c".to_string()];
    let q = create_name_query(&names);
    assert!(q.contains("emote_0: emotes(query: \"foo\", page: 1"));
    assert!(q.contains("emote_1: emotes(query: \"a\\\"b\\\\c\", page: 1"));
    assert!(q.contains("exact_match: true, case_sensitive: true"));
}

#[test]
fn id_query_holds_each_id() {
    let ids = vec!["X1".to_string(), "X2".to_string(), "X3".to_string()];
    let q = create_id_query(&ids);
    assert!(q.contains("emote_0: emote(id: \"X1\")"));
    assert!(q.contains("emote_1: emote(id: \"X2\")"));
    assert!(q.contains("emote_2: emote(id: \"X3\")"));
    assert!(!q.contains("emote_3"));
}

#[test]
fn channel_query_holds_each_set() {
    let ids = vec!["S1".to_string(), "S2".to_string()];
    let q = create_channel_query(&ids);
    assert!(q.contains("channel_0: emoteSet(id: \"S1\")"));
    assert!(q.contains("channel_1: emoteSet(id: \"S2\")"));
    assert!(q.contains("emotes {"));
    assert!(q.contains("data {"));
}

#[test]
fn aliases_are_positional() {
    assert_eq!(create_page_alias(12), "page12");
    assert_eq!(create_keyed_alias(LookupKind::Name, 0), "emote_0");
    assert_eq!(create_keyed_alias(LookupKind::Id, 10), "emote_10");
    assert_eq!(create_keyed_alias(LookupKind::Channel, 7), "channel_7");
    assert_eq!(category_page_aliases(3, 2), vec!["page3", "page4", "page5"]);
}
