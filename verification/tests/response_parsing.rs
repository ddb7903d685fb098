use shake_bot::parsing::{parse_all_response_lines, parse_response, parse_response_line};

#[test]
fn test_parse_response() {
    let input: Vec<(&str, &str)> = vec![
        (" {{Hero icon|Abaddon|16px}} [[File:Mist Coil icon.png|16px|link=Mist Coil]] Reclaimed for Avernus.", "Reclaimed for Avernus."),
        ("{{resp|u}} [[Shitty Wizard]]!", "Shitty Wizard!"),
        (" From House Avernus, I set forth.", "From House Avernus, I set forth."),
        (" I have known from an early age, since the Avernal Font's first and greatest revelation, that this one would be in the bag.", "I have known from an early age, since the Avernal Font's first and greatest revelation, that this one would be in the bag."),
        ("Who goes there?", "Who goes there?"),
        (" The [[fog of war]] is no match for the mist of fate.", "The fog of war is no match for the mist of fate."),
        ("<small>remove this text</small> response here.", "response here."),
        (" {{resp|60}} This magic…disappoints.", "This magic…disappoints."),
        ("{{resp|60}} My concentration—shattered!", "My concentration—shattered!"),
        (" [nonverbal]", "nonverbal"),
    ];

    for (input, expected) in input.iter() {
        match parse_response(input) {
            Some(response) => {
                assert_eq!(&response, expected);
            }
            None => {
                panic!("{:?}", input);
            }
        }
    }
}

#[test]
fn test_parse_response_line() {
    let input: Vec<(&str, (&str, &str))> = vec![(
        "* <sm2>vo_abaddon_abad_spawn_01.mp3</sm2> Abaddon.",
        ("Vo abaddon abad spawn 01.mp3", "Abaddon."),
    )];

    for (input, (expected_file, expected_response)) in input.iter() {
        match parse_response_line(input) {
            Some(records) => {
                assert_eq!(records.len(), 1);
                assert_eq!(records[0].0, expected_file.to_string());
                assert_eq!(records[0].1, expected_response.to_string());
            }
            None => {
                panic!("{:?}", input);
            }
        }
    }
}

#[test]
/// Input should appear with literal \n rather than newline character
fn test_all_response_lines() {
    let input = r#"\n{{Tabs Hero}}\n\n{{VoiceNavSidebar}}{{TOC float|right}}\n\n== Loadout ==\n* <sm2>vo_abaddon_abad_spawn_01.mp3</sm2> Abaddon.\n\n== Drafting ==\n''Picked''\n* <sm2>vo_abaddon_abad_spawn_01.mp3</sm2> Abaddon.\n"#;

    let expected = [
        ("Vo abaddon abad spawn 01.mp3", "Abaddon."),
        ("Vo abaddon abad spawn 01.mp3", "Abaddon."),
    ];

    let response_lines = parse_all_response_lines(input);
    assert_eq!(response_lines.len(), expected.len());
    for (actual, expected) in response_lines.iter().zip(expected.iter()) {
        assert_eq!(actual.file, expected.0);
        assert_eq!(actual.response, expected.1);
    }
}

#[test]
fn two_records_among_headers() {
    let input = "== Loadout ==\n* <sm2>vo_a.mp3</sm2> Hello there.\n''commentary''\n* <sm2>vo_b.mp3</sm2> Good day.\n== End ==";
    let records = parse_all_response_lines(input);
    assert_eq!(records.len(), 2);
    assert_eq!(records[0].file, "Vo a.mp3");
    assert_eq!(records[0].response, "Hello there.");
    assert_eq!(records[1].file, "Vo b.mp3");
    assert_eq!(records[1].response, "Good day.");
}

#[test]
fn tabular_single_record_over_two_lines() {
    let input = "| align=\"left\" | \"Ready for action.\" \n| <sm2>vgs_ready.mp3</sm2>";
    let records = parse_all_response_lines(input);
    assert_eq!(records.len(), 1);
    assert_eq!(records[0].file, "vgs_ready.mp3");
    assert_eq!(records[0].response, "\"Ready for action.\" ");
}

#[test]
fn tabular_dual_alternates() {
    let line = "| align=\"left\" | \"No. <br> Yes. | <sm2>vgs_no.mp3</sm2> <br> <sm2>vgs_yes.mp3</sm2>";
    let records = parse_response_line(line).unwrap();
    assert_eq!(records.len(), 2);
    assert_eq!(records[0].0, "vgs_no.mp3");
    assert_eq!(records[0].1, "\"No. ");
    assert_eq!(records[1].0, "vgs_yes.mp3");
    assert_eq!(records[1].1, "Yes. ");
}

#[test]
fn malformed_line_is_skipped() {
    // the curly tag never closes, so the only candidate line fails to parse
    let input = "* <sm2>vo_a.mp3</sm2> {{broken\n* <sm2>vo_b.mp3</sm2> Fine.";
    let records = parse_all_response_lines(input);
    assert_eq!(records.len(), 1);
    assert_eq!(records[0].response, "Fine.");
}

#[test]
fn unterminated_tag_fails() {
    assert!(parse_response("{{never closed").is_none());
    assert!(parse_response("[[never closed").is_none());
    assert!(parse_response("[never closed").is_none());
    assert!(parse_response("<never closed").is_none());
}

#[test]
fn empty_input_gives_empty_utterance() {
    assert_eq!(parse_response("").unwrap(), "");
    assert_eq!(parse_response("   ").unwrap(), "");
}
