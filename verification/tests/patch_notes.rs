use shake_bot::dota::{version_is_well_formed, Dota};
use shake_bot::patch_notes::{PatchNotes, Version};
use shake_bot::response::ResponseDatabase;

fn version(note: &str) -> Version {
    Version {
        general: vec![note.to_string()],
        items: vec![("item_name".to_string(), vec!["Fixed a bug with the item".to_string()])],
        heroes: vec![],
    }
}

#[test]
fn latest_version() {
    let patch_notes = PatchNotes {
        versions: vec![
            ("7.24c".to_string(), version("Fixed a bug with the new hero")),
            ("7.35c".to_string(), version("Fixed a bug with the new hero")),
            ("7.15c".to_string(), version("Fixed a bug with the new hero")),
        ],
    };
    let latest_version = patch_notes.get_latest_version().unwrap();
    assert_eq!(latest_version, "7.35c");
}

#[test]
fn latest_version_of_empty_notes_is_none() {
    let patch_notes = PatchNotes { versions: vec![] };
    assert!(patch_notes.get_latest_version().is_none());
}

#[test]
fn possible_next_versions_steps_each_part() {
    let dota = Dota {
        version: "7_35c".to_string(),
        patch_notes: vec![],
        responses: ResponseDatabase::new(),
    };
    let (major, minor, patch) = dota.possible_next_versions();
    assert_eq!(major, "8_35c");
    assert_eq!(minor, "7_45c");
    assert_eq!(patch, "7_36");
}

#[test]
fn possible_next_versions_carries_digits() {
    let dota = Dota {
        version: "19_9b".to_string(),
        patch_notes: vec![],
        responses: ResponseDatabase::new(),
    };
    let (major, minor, patch) = dota.possible_next_versions();
    assert_eq!(major, "20_9b");
    assert_eq!(minor, "19_10b");
    assert_eq!(patch, "19_9c");
}

#[test]
fn apply_update_rebuilds_only_on_new_version() {
    let mut dota = Dota {
        version: "7_35c".to_string(),
        patch_notes: vec![],
        responses: ResponseDatabase::new(),
    };
    dota.responses.add_hero_and_responses(
        "Abaddon".to_string(),
        vec![("x".to_string(), "x".to_string(), "u".to_string())],
    );

    dota.apply_update("7_35c".to_string(), vec![("7_35c".to_string(), version("same"))]);
    assert_eq!(dota.responses.responses.len(), 1);
    assert_eq!(dota.patch_notes.len(), 0);

    dota.apply_update("7_36".to_string(), vec![("7_36".to_string(), version("new"))]);
    assert_eq!(dota.version, "7_36");
    assert_eq!(dota.patch_notes.len(), 1);
    assert_eq!(dota.responses.responses.len(), 0);
}

#[test]
fn version_shape_checker() {
    assert!(version_is_well_formed("7_35c"));
    assert!(version_is_well_formed("19_9b"));
    assert!(!version_is_well_formed("735c"));
    assert!(!version_is_well_formed("_35c"));
    assert!(!version_is_well_formed("7_3"));
    assert!(!version_is_well_formed("7_x5c"));
    assert!(!version_is_well_formed(""));
}
