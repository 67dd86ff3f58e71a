use emotebot::emote::{Emote, EmoteHost, EmoteImage, EmoteSetEmote};
use emotebot::resolve::{
    check_graph_errors, check_status, chunk_ids, collect_by_id, merge_by_id, merge_channels,
    merge_top, pick_by_name, plan_queries, plan_top, seed_registry, Lookup, ProviderError,
};
use emotebot::table::{EmoteMap, KeyField};

fn emote(id: &str, name: &str, animated: bool) -> Emote {
    Emote {
        id: id.to_string(),
        name: name.to_string(),
        host: EmoteHost { files: vec![EmoteImage { format: "WEBP".to_string() }] },
        animated,
    }
}

fn ids(n: usize) -> Vec<String> {
    (0..n).map(|i| format!("id{}", i)).collect()
}

#[test]
fn twenty_five_ids_make_three_batches() {
    let all = ids(25);
    let batches = chunk_ids(&all);
    assert_eq!(batches.len(), 3);
    assert_eq!(batches[0].len(), 10);
    assert_eq!(batches[1].len(), 10);
    assert_eq!(batches[2].len(), 5);
    assert_eq!(batches.concat(), all);
    let docs = plan_queries(&Lookup::ById(all));
    assert_eq!(docs.len(), 3);
    assert!(docs[2].contains("emote_4: emote(id: \"id24\")"));
    assert!(!docs[2].contains("emote_5"));
}

#[test]
fn eleven_and_twenty_ids() {
    assert_eq!(chunk_ids(&ids(11)).len(), 2);
    assert_eq!(chunk_ids(&ids(20)).len(), 2);
    assert_eq!(chunk_ids(&ids(10)).len(), 1);
}

#[test]
fn empty_id_and_channel_lookups_send_nothing() {
    assert!(chunk_ids(&vec![]).is_empty());
    assert!(plan_queries(&Lookup::ById(vec![])).is_empty());
    assert!(plan_queries(&Lookup::ByChannel(vec![])).is_empty());
    assert_eq!(merge_by_id(vec![]).len(), 0);
    assert_eq!(merge_channels(vec![]).len(), 0);
}

#[test]
fn name_and_channel_lookups_send_one_document() {
    assert_eq!(plan_queries(&Lookup::ByName(vec!["foo".to_string()])).len(), 1);
    assert_eq!(plan_queries(&Lookup::ByChannel(vec!["S1".to_string()])).len(), 1);
}

#[test]
fn merged_batches_are_union_by_id() {
    let m = merge_by_id(vec![
        vec![emote("a", "A", false), emote("b", "B", false)],
        vec![emote("c", "C", true)],
    ]);
    assert_eq!(m.len(), 3);
    assert_eq!(m.key(), KeyField::Id);
    for k in ["a", "b", "c"] {
        assert!(m.contains(&k.to_string()));
    }
    assert_eq!(m.get(&"c".to_string()).unwrap().name, "C");
}

#[test]
fn missing_id_fails_batch() {
    let batch = vec!["a".to_string(), "b".to_string(), "c".to_string()];
    let r = collect_by_id(&batch, vec![Some(emote("a", "A", false)), None, None]);
    match r {
        Err(ProviderError::NotFound(x)) => assert_eq!(x, "b"),
        _ => panic!("expected a missing id"),
    }
    let ok = collect_by_id(&batch, vec![
        Some(emote("a", "A", false)),
        Some(emote("b", "B", false)),
        Some(emote("c", "C", false)),
    ]);
    assert_eq!(ok.ok().unwrap().len(), 3);
}

#[test]
fn channels_merge_by_id() {
    let m = merge_channels(vec![
        vec![EmoteSetEmote { data: emote("a", "A", false) }],
        vec![EmoteSetEmote { data: emote("a", "A2", false) }, EmoteSetEmote { data: emote("b", "B", false) }],
    ]);
    assert_eq!(m.len(), 2);
    assert_eq!(m.get(&"a".to_string()).unwrap().name, "A2");
}

#[test]
fn name_lookup_takes_exact_match() {
    let names = vec!["Kappa".to_string()];
    let m = pick_by_name(&names, vec![vec![emote("1", "KappaPride", false), emote("2", "Kappa", false), emote("3", "Kappa", true)]]);
    let m = m.ok().unwrap();
    assert_eq!(m.len(), 1);
    assert_eq!(m.get(&"Kappa".to_string()).unwrap().id, "2");
}

#[test]
fn name_lookup_fails_without_exact_match() {
    let names = vec!["Kappa".to_string(), "pog".to_string()];
    let r = pick_by_name(&names, vec![vec![emote("2", "Kappa", false)], vec![emote("9", "POG", false)]]);
    match r {
        Err(ProviderError::NotFound(x)) => assert_eq!(x, "pog"),
        _ => panic!("expected a missing name"),
    }
}

#[test]
fn trending_wins_over_top() {
    let m = merge_top(
        vec![emote("t1", "catJAM", true)],
        vec![emote("p1", "catJAM", false), emote("p2", "OMEGALUL", false)],
    );
    assert_eq!(m.len(), 2);
    assert_eq!(m.get(&"catJAM".to_string()).unwrap().id, "t1");
    assert_eq!(m.get(&"OMEGALUL".to_string()).unwrap().id, "p2");
}

#[test]
fn first_top_record_wins_within_top() {
    let m = merge_top(vec![], vec![emote("p1", "x", false), emote("p2", "x", false)]);
    assert_eq!(m.get(&"x".to_string()).unwrap().id, "p1");
}

#[test]
fn persisted_override_wins_over_top() {
    let listed = merge_top(vec![], vec![emote("p1", "catJAM", false), emote("p2", "EZ", false)]);
    let overrides = merge_by_id(vec![vec![emote("o1", "catJAM", true)]]);
    let m = seed_registry(listed, overrides);
    assert_eq!(m.key(), KeyField::Name);
    assert_eq!(m.len(), 2);
    let e = m.get(&"catJAM".to_string()).unwrap();
    assert_eq!(e.id, "o1");
    assert!(e.animated);
    assert_eq!(m.get(&"EZ".to_string()).unwrap().id, "p2");
}

#[test]
fn startup_plan_is_trending_then_five_top_pages() {
    let docs = plan_top();
    assert_eq!(docs.len(), 6);
    assert!(docs[0].contains("category: TRENDING_DAY"));
    assert!(docs[0].contains("page1:"));
    for (i, d) in docs[1..].iter().enumerate() {
        assert!(d.contains("category: TOP,"));
        assert!(d.contains(&format!("page{}:", i + 1)));
    }
}

#[test]
fn status_classification() {
    match check_status(404, "nope".to_string()) {
        Err(ProviderError::Http(s, b)) => {
            assert_eq!(s, 404);
            assert_eq!(b, "nope");
        }
        _ => panic!("expected an http error"),
    }
    assert!(matches!(check_status(503, String::new()), Err(ProviderError::Http(503, _))));
    assert_eq!(check_status(200, "{}".to_string()).ok().unwrap(), "{}");
    assert!(check_status(399, String::new()).is_ok());
    assert!(check_status(600, String::new()).is_ok());
}

#[test]
fn graph_errors_fail() {
    assert!(check_graph_errors(None).is_ok());
    match check_graph_errors(Some("[\"bad\"]".to_string())) {
        Err(ProviderError::Graph(d)) => assert_eq!(d, "[\"bad\"]"),
        _ => panic!("expected a graph error"),
    }
}

#[test]
fn table_insert_overwrites_and_keeps_first() {
    let mut m = EmoteMap::new(KeyField::Name);
    m.insert(emote("1", "a", false));
    m.insert(emote("2", "a", false));
    assert_eq!(m.len(), 1);
    assert_eq!(m.get(&"a".to_string()).unwrap().id, "2");
    m.insert_if_absent(emote("3", "a", false));
    assert_eq!(m.get(&"a".to_string()).unwrap().id, "2");
    assert!(m.get(&"b".to_string()).is_none());
}
