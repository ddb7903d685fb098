use shake_bot::bot::{split_large_message, triage_message, Bot, MessageDisposition, MESSAGE_CHUNK_LEN, MIN_MESSAGES};
use shake_bot::data::Data;
use shake_bot::serde_response::{
    category_titles, is_category_page, PagesResponse, Query, ResponseCategoryMember,
};

#[test]
fn short_message_is_one_chunk() {
    let chunks = split_large_message("hello");
    assert_eq!(chunks, vec!["hello".to_string()]);
    let chunks = split_large_message("");
    assert_eq!(chunks, vec!["".to_string()]);
}

#[test]
fn long_message_splits_into_full_chunks() {
    let msg = "a".repeat(4500);
    let chunks = split_large_message(&msg);
    assert_eq!(chunks.len(), 3);
    assert_eq!(chunks[0].len(), MESSAGE_CHUNK_LEN);
    assert_eq!(chunks[1].len(), MESSAGE_CHUNK_LEN);
    assert_eq!(chunks[2].len(), 500);
    assert_eq!(chunks.concat(), msg);
}

#[test]
fn exact_multiple_has_no_empty_chunk() {
    let msg = "b".repeat(2 * MESSAGE_CHUNK_LEN);
    let chunks = split_large_message(&msg);
    assert_eq!(chunks.len(), 2);
    assert!(chunks.iter().all(|c| c.len() == MESSAGE_CHUNK_LEN));
    assert_eq!(chunks.concat(), msg);
}

#[test]
fn bot_construction() {
    let _ = Bot::new();
    let _ = Bot::default();
}

#[test]
fn default_data_is_empty_and_answers_no_match() {
    let data = Data::default();
    assert!(data.get_response("anything", None).is_none());
    assert_eq!(data.disabled_users.len(), 0);
}

#[test]
fn category_listing_helpers() {
    let resp = PagesResponse {
        query: Query {
            categorymembers: vec![
                ResponseCategoryMember { title: "Abaddon/Responses".to_string() },
                ResponseCategoryMember { title: "Category:Voicelines".to_string() },
            ],
        },
    };
    let titles = category_titles(&resp);
    assert_eq!(titles, vec!["Abaddon/Responses".to_string(), "Category:Voicelines".to_string()]);
    assert!(is_category_page("Category:Voicelines"));
    assert!(!is_category_page("Abaddon/Responses"));
    assert!(!is_category_page("Cat"));
}

#[test]
fn triage_filters_and_cooldown() {
    let disabled = vec!["42".to_string()];
    let mut cooldown: i32 = 0;

    // own messages and short messages change nothing
    assert_eq!(
        triage_message("ShakeBot", "1", "one two three", &mut cooldown, &disabled),
        MessageDisposition::Skip
    );
    assert_eq!(
        triage_message("someone", "1", "two words", &mut cooldown, &disabled),
        MessageDisposition::Skip
    );
    assert_eq!(cooldown, 0);

    // a real message starts the cooldown
    assert_eq!(
        triage_message("someone", "1", "one two three", &mut cooldown, &disabled),
        MessageDisposition::Respond
    );
    assert_eq!(cooldown, MIN_MESSAGES);

    // the next messages tick it down
    assert_eq!(
        triage_message("someone", "1", "one two three", &mut cooldown, &disabled),
        MessageDisposition::Cooldown
    );
    assert_eq!(cooldown, MIN_MESSAGES - 1);

    // an opted-out author is skipped even when the cooldown has run out
    cooldown = 0;
    assert_eq!(
        triage_message("someone", "42", "one two three", &mut cooldown, &disabled),
        MessageDisposition::Skip
    );
    assert_eq!(cooldown, MIN_MESSAGES);
}
