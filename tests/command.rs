use emotebot::command::{
    apply_added, finish_command, parse_command, split_values, usage_reply, CommandError, CommandOption,
};
use emotebot::emote::{Emote, EmoteHost};
use emotebot::resolve::{pick_by_name, Lookup, ProviderError};
use emotebot::table::{EmoteMap, KeyField};

fn record(id: &str, name: &str) -> Emote {
    Emote { id: id.to_string(), name: name.to_string(), host: EmoteHost { files: vec![] }, animated: false }
}

fn option(name: &str, value: &str) -> CommandOption {
    CommandOption { name: name.to_string(), value: Some(value.to_string()) }
}

#[test]
fn values_are_split_and_trimmed() {
    assert_eq!(split_values(" foo , bar,baz "), vec!["foo", "bar", "baz"]);
    assert_eq!(split_values("one"), vec!["one"]);
    assert_eq!(split_values(""), vec![""]);
    assert_eq!(split_values("a,"), vec!["a", ""]);
}

#[test]
fn name_option_gives_name_lookup() {
    match parse_command(&vec![option("name", "foo,bar")]) {
        Ok(Lookup::ByName(v)) => assert_eq!(v, vec!["foo", "bar"]),
        _ => panic!("expected a name lookup"),
    }
    assert!(matches!(parse_command(&vec![option("id", "a")]), Ok(Lookup::ById(_))));
    assert!(matches!(parse_command(&vec![option("channel_id", "a")]), Ok(Lookup::ByChannel(_))));
    assert!(matches!(parse_command(&vec![option("other", "a")]), Err(CommandError::UnknownOption)));
    match parse_command(&vec![CommandOption { name: "id".to_string(), value: None }]) {
        Ok(Lookup::ById(v)) => assert!(v.is_empty()),
        _ => panic!("expected an id lookup"),
    }
}

#[test]
fn two_options_are_a_usage_error() {
    let mut registry = EmoteMap::new(KeyField::Name);
    registry.insert(record("1", "keep"));
    let r = parse_command(&vec![option("id", "X1"), option("name", "foo")]);
    assert!(matches!(r, Err(CommandError::Usage)));
    assert!(matches!(parse_command(&vec![]), Err(CommandError::Usage)));
    assert_eq!(registry.len(), 1);
    assert_eq!(usage_reply(), "Please provide either an emote id or name or channel id");
}

#[test]
fn name_command_adds_both_records() {
    let names = match parse_command(&vec![option("name", "foo,bar")]) {
        Ok(Lookup::ByName(v)) => v,
        _ => panic!("expected a name lookup"),
    };
    let found = pick_by_name(&names, vec![vec![record("F1", "foo")], vec![record("B1", "bar")]]).ok().unwrap();
    let mut registry = EmoteMap::new(KeyField::Name);
    registry.insert(record("0", "old"));
    let (overrides, reply) = apply_added(&mut registry, found, &"42".to_string());
    assert_eq!(registry.len(), 3);
    assert_eq!(registry.get(&"foo".to_string()).unwrap().id, "F1");
    assert_eq!(registry.get(&"bar".to_string()).unwrap().id, "B1");
    assert_eq!(overrides.len(), 2);
    for o in overrides.iter() {
        assert_eq!(o.guild_id, "42");
    }
    assert!(overrides.iter().any(|o| o.emote_name == "foo" && o.emote_id == "F1"));
    assert!(overrides.iter().any(|o| o.emote_name == "bar" && o.emote_id == "B1"));
    assert!(reply.starts_with("Added emotes:\n"));
    assert!(reply.contains(" - foo\n"));
    assert!(reply.contains(" - bar\n"));
}

#[test]
fn failed_lookup_changes_nothing() {
    let mut registry = EmoteMap::new(KeyField::Name);
    registry.insert(record("0", "old"));
    let (overrides, reply) = finish_command(&mut registry, Err(ProviderError::NotFound("x".to_string())), &"1".to_string());
    assert!(overrides.is_empty());
    assert_eq!(reply, "Failed to get emotes");
    assert_eq!(registry.len(), 1);
}
