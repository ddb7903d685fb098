use shake_bot::process_text;
use shake_bot::response::{
    get_hero_name, is_hero_type, materialize_responses, ResponseDatabase,
};
use shake_bot::parsing::Response as ParsedResponse;

fn sample_store() -> ResponseDatabase {
    let mut db = ResponseDatabase::new();
    db.add_hero_and_responses(
        "Abaddon".to_string(),
        vec![
            (
                "Reclaimed for Avernus.".to_string(),
                process_text("Reclaimed for Avernus."),
                "http://example.test/a.mp3".to_string(),
            ),
            (
                "Who goes there?".to_string(),
                process_text("Who goes there?"),
                "http://example.test/b.mp3".to_string(),
            ),
        ],
    );
    db.add_hero_and_responses(
        "Axe".to_string(),
        vec![(
            "Axe is Axe.".to_string(),
            process_text("Axe is Axe."),
            "http://example.test/c.mp3".to_string(),
        )],
    );
    db
}

#[test]
fn insert_assigns_unique_linked_ids() {
    let db = sample_store();
    assert_eq!(db.responses.len(), 3);
    assert_eq!(db.heroes.len(), 2);
    // response ids unique
    for i in 0..db.responses.len() {
        for j in 0..db.responses.len() {
            if i != j {
                assert_ne!(db.responses[i].id, db.responses[j].id);
            }
        }
    }
    // every response's owner exists
    for r in db.responses.iter() {
        assert!(db.heroes.iter().any(|h| h.id == r.hero_id));
    }
    // hero ids are distinct as well
    assert_ne!(db.heroes[0].id, db.heroes[1].id);
}

#[test]
fn lookup_unique_match_returns_it() {
    let db = sample_store();
    let r = db.get_response(&process_text("Who goes there?"), None).unwrap();
    assert_eq!(r.original_text, "Who goes there?");
    assert_eq!(r.response_link, "http://example.test/b.mp3");
}

#[test]
fn lookup_no_match_returns_none() {
    let db = sample_store();
    assert!(db.get_response("never stored", None).is_none());
    let empty = ResponseDatabase::new();
    assert!(empty.get_response("anything at all", None).is_none());
}

#[test]
fn lookup_respects_hero_filter() {
    let db = sample_store();
    let abaddon = db.get_hero_id("Abaddon").unwrap();
    let axe = db.get_hero_id("Axe").unwrap();
    let key = process_text("Who goes there?");
    assert!(db.get_response(&key, Some(abaddon)).is_some());
    assert!(db.get_response(&key, Some(axe)).is_none());
}

#[test]
fn hero_getters() {
    let db = sample_store();
    let id = db.get_hero_id("Abaddon").unwrap();
    assert_eq!(db.get_hero_name(id).unwrap(), "Abaddon");
    assert_eq!(db.get_img_dir(id).unwrap(), "/media/dota2/images/Abaddon.png");
    assert!(db.get_hero_id("Unknown").is_none());
    assert!(db.get_hero_name(12345).is_none());
    let names = db.get_all_hero_names();
    assert_eq!(names, vec!["Abaddon".to_string(), "Axe".to_string()]);
}

#[test]
fn is_hero_response_checks_storage() {
    let db = sample_store();
    assert!(db.is_hero_response(&process_text("Axe is Axe.")));
    assert!(!db.is_hero_response("not stored"));
}

#[test]
fn icon_lookup_and_fallback() {
    let mut db = sample_store();
    db.set_icons(vec![
        ("abaddon".to_string(), "http://example.test/abaddon.png".to_string()),
        ("legion".to_string(), "http://example.test/legion.png".to_string()),
    ]);
    assert_eq!(db.get_icon_url("abaddon").unwrap(), "http://example.test/abaddon.png");
    assert!(db.get_icon_url("missing").is_none());

    let id = db.get_hero_id("Abaddon").unwrap();
    assert_eq!(db.get_icon_for_hero(id).unwrap(), "http://example.test/abaddon.png");

    // a name that resolves only after the announcer suffix is removed
    db.add_hero_and_responses("Legion Announcer Pack".to_string(), vec![]);
    let lid = db.get_hero_id("Legion Announcer Pack").unwrap();
    assert_eq!(db.get_icon_for_hero(lid).unwrap(), "http://example.test/legion.png");
}

#[test]
fn clear_for_rebuild_keeps_icons_and_counters() {
    let mut db = sample_store();
    db.set_icons(vec![("abaddon".to_string(), "u".to_string())]);
    let next_before = db.next_response_id;
    db.clear_for_rebuild();
    assert_eq!(db.responses.len(), 0);
    assert_eq!(db.heroes.len(), 0);
    assert_eq!(db.icons.len(), 1);
    assert_eq!(db.next_response_id, next_before);
    // rebuilt entries continue with fresh ids
    db.add_hero_and_responses(
        "Abaddon".to_string(),
        vec![("x".to_string(), "x".to_string(), "u".to_string())],
    );
    assert_eq!(db.responses[0].id, next_before);
}

#[test]
fn materialize_drops_unusable_records() {
    let records = vec![
        ParsedResponse { file: "A.mp3".to_string(), response: "Hello there.".to_string() },
        // canonicalizes to nothing
        ParsedResponse { file: "B.mp3".to_string(), response: "!!!".to_string() },
        // no resolved link
        ParsedResponse { file: "C.mp3".to_string(), response: "Good day.".to_string() },
    ];
    let links = vec![
        ("A.mp3".to_string(), "http://example.test/a.mp3".to_string()),
        ("B.mp3".to_string(), "http://example.test/b.mp3".to_string()),
    ];
    let triples = materialize_responses(&records, &links);
    assert_eq!(triples.len(), 1);
    assert_eq!(triples[0].0, "Hello there.");
    assert_eq!(triples[0].1, "hello there");
    assert_eq!(triples[0].2, "http://example.test/a.mp3");
}

#[test]
fn page_title_helpers() {
    assert!(is_hero_type("Abaddon/Responses"));
    assert!(!is_hero_type("Abaddon"));
    assert_eq!(get_hero_name("Abaddon/Responses"), "Abaddon");
    assert_eq!(get_hero_name("Abaddon"), "Abaddon");
}
