use emotebot::emote::{Emote, EmoteHost};
use emotebot::table::{EmoteMap, KeyField};
use emotebot::triage::{attribution, decide, has_prefix, link_for, prepare_transform, triage, IncomingMessage, Triage};

fn registry() -> EmoteMap {
    let mut m = EmoteMap::new(KeyField::Name);
    m.insert(Emote { id: "X1".to_string(), name: "Kappa".to_string(), host: EmoteHost { files: vec![] }, animated: false });
    m.insert(Emote { id: "Y2".to_string(), name: "catJAM".to_string(), host: EmoteHost { files: vec![] }, animated: true });
    m
}

fn message(content: &str) -> IncomingMessage {
    IncomingMessage {
        content: content.to_string(),
        author_name: "Alice".to_string(),
        author_is_bot: false,
        has_attachments: false,
        has_embeds: false,
        has_activity: false,
        has_application: false,
        has_reference: false,
        is_regular: true,
    }
}

#[test]
fn trigger_is_substituted() {
    match triage(&registry(), &message("Kappa")) {
        Triage::Substitute { attribution, link } => {
            assert_eq!(attribution, "**Alice**");
            assert!(link.ends_with("X1/2x.png"));
            assert_eq!(link, "https://cdn.7tv.app/emote/X1/2x.png");
        }
        _ => panic!("expected a substitution"),
    }
}

#[test]
fn animated_trigger_links_gif() {
    match triage(&registry(), &message("catJAM")) {
        Triage::Substitute { link, .. } => assert_eq!(link, "https://cdn.7tv.app/emote/Y2/2x.gif"),
        _ => panic!("expected a substitution"),
    }
}

#[test]
fn trigger_must_be_whole_content() {
    let r = decide(&registry(), &message("Kappa "), &"x".to_string(), &"y".to_string(), u32::MAX);
    assert!(matches!(r, Triage::Ignore));
}

#[test]
fn ineligible_messages_are_ignored_for_every_roll() {
    let reg = registry();
    let mut bot = message("hello world");
    bot.author_is_bot = true;
    let cases = vec![message(""), message("http://example.com/hello"), message("https://example.com/hello"), bot];
    for m in cases.iter() {
        for roll in [0u32, 1, 42_949_672, u32::MAX] {
            let r = decide(&reg, m, &"hewwo".to_string(), &"hewwo.".to_string(), roll);
            assert!(matches!(r, Triage::Ignore));
        }
        assert!(matches!(triage(&reg, m), Triage::Ignore));
        assert!(prepare_transform(m).is_none());
    }
}

#[test]
fn attached_or_referenced_messages_are_ignored() {
    let reg = registry();
    let mut a = message("hello world");
    a.has_attachments = true;
    let mut r = message("hello world");
    r.has_reference = true;
    let mut k = message("hello world");
    k.is_regular = false;
    for m in [a, r, k].iter() {
        assert!(matches!(decide(&reg, m, &"hewwo".to_string(), &"hewwo.".to_string(), 0), Triage::Ignore));
    }
}

#[test]
fn transform_taken_below_one_in_a_hundred() {
    let reg = registry();
    let m = message("hello world");
    let t = "hewwo wowwd".to_string();
    let p = "hewwo wowwd.".to_string();
    match decide(&reg, &m, &t, &p, 0) {
        Triage::Transform { attribution, text } => {
            assert_eq!(attribution, "**Alice**");
            assert_eq!(text, "hewwo wowwd.");
        }
        _ => panic!("expected a transform"),
    }
    assert!(matches!(decide(&reg, &m, &t, &p, 42_949_672), Triage::Transform { .. }));
    assert!(matches!(decide(&reg, &m, &t, &p, 42_949_673), Triage::Ignore));
    assert!(matches!(decide(&reg, &m, &t, &p, u32::MAX), Triage::Ignore));
}

#[test]
fn unchanged_transform_is_ignored() {
    let reg = registry();
    let m = message("ok");
    assert!(matches!(decide(&reg, &m, &"ok".to_string(), &"ok.".to_string(), 0), Triage::Ignore));
}

#[test]
fn transform_changes_text() {
    let m = message("hello world");
    let t = prepare_transform(&m).unwrap();
    assert_ne!(t, "hello world.");
    assert_ne!(t, "hello world");
    assert!(t.starts_with("hewwo"));
}

#[test]
fn triage_of_plain_text_is_ignore_or_transform() {
    let reg = registry();
    let m = message("hello world");
    match triage(&reg, &m) {
        Triage::Ignore => {}
        Triage::Transform { attribution, text } => {
            assert_eq!(attribution, "**Alice**");
            assert_eq!(text, prepare_transform(&m).unwrap());
        }
        Triage::Substitute { .. } => panic!("no trigger in the message"),
    }
}

#[test]
fn helpers() {
    assert!(has_prefix("https://x", "https://"));
    assert!(!has_prefix("http", "http://"));
    assert!(has_prefix("abc", ""));
    assert_eq!(attribution("Bob"), "**Bob**");
    let e = Emote { id: "Z".to_string(), name: "z".to_string(), host: EmoteHost { files: vec![] }, animated: true };
    assert_eq!(link_for(&e), "https://cdn.7tv.app/emote/Z/2x.gif");
}
