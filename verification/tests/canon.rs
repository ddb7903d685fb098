use shake_bot::process_text;

#[test]
fn smart_punctuation_example() {
    assert_eq!(process_text("My concentration—shattered!"), "my concentration shattered");
}

#[test]
fn lowercase_and_separators() {
    assert_eq!(process_text("Reclaimed for Avernus."), "reclaimed for avernus");
    assert_eq!(process_text("This magic…disappoints."), "this magic disappoints");
    assert_eq!(process_text("  Who   goes there?  "), "who goes there");
    assert_eq!(process_text("A-B_C"), "a b c");
}

#[test]
fn idempotent_on_samples() {
    let samples = [
        "My concentration—shattered!",
        "  Who   goes there?  ",
        "… … …",
        "",
        "already canonical text 123",
    ];
    for s in samples.iter() {
        let once = process_text(s);
        let twice = process_text(&once);
        assert_eq!(once, twice);
    }
}

#[test]
fn output_shape() {
    let samples = ["Hello, WORLD!!", "\tTabs\nand\r\nnewlines\t", "¿Qué?", "§§§"];
    for s in samples.iter() {
        let out = process_text(s);
        assert!(!out.starts_with(' '));
        assert!(!out.ends_with(' '));
        assert!(!out.contains("  "));
        for c in out.chars() {
            assert!(c.is_ascii_lowercase() || c.is_ascii_digit() || c == ' ');
        }
    }
}

#[test]
fn all_separators_give_empty() {
    assert_eq!(process_text(""), "");
    assert_eq!(process_text("!!! ??? ..."), "");
}
