use tabletop_logs::fantasy_grounds::{
    sender_name_and_content_are_valid_message, try_get_date_and_time_strings,
    try_get_roll_from_possible_roll_text, try_get_sender_name_and_content_from_font_elem,
    FantasyGroundsChatLog,
};

#[test]
fn roll_annotation_is_read() {
    let roll = try_get_roll_from_possible_roll_text(" [1d20+2 = 15]").unwrap();
    assert_eq!(roll.formula, "1d20+2");
    assert_eq!(roll.outcome, "15");
    assert!(roll.single_rolls.is_empty());

    let roll = try_get_roll_from_possible_roll_text(" [ATTACK 1g6r = 4]").unwrap();
    assert_eq!(roll.formula, "ATTACK 1d6d");
    assert_eq!(roll.outcome, "4");
}

#[test]
fn malformed_roll_annotations_are_refused() {
    assert!(try_get_roll_from_possible_roll_text(" [no roll here]").is_none());
    assert!(try_get_roll_from_possible_roll_text(" [1d6 = x]").is_none());
    assert!(try_get_roll_from_possible_roll_text(" [1d6 = 3 = 4]").is_none());
}

#[test]
fn sender_and_content_split_on_one_colon() {
    let (sender, content) = try_get_sender_name_and_content_from_font_elem("Alice: hi").unwrap();
    assert_eq!(sender, "Alice");
    assert_eq!(content, " hi");
    assert!(try_get_sender_name_and_content_from_font_elem("[Alice]: hi").is_none());
    let (sender, content) = try_get_sender_name_and_content_from_font_elem("Bob: note: x").unwrap();
    assert_eq!(sender, "Bob");
    assert_eq!(content, " note: x");
    assert!(try_get_sender_name_and_content_from_font_elem("no colon").is_none());
    assert!(try_get_sender_name_and_content_from_font_elem("A&#62;B: x").is_none());
    assert!(try_get_sender_name_and_content_from_font_elem("").is_none());
}

#[test]
fn message_denylist() {
    assert!(sender_name_and_content_are_valid_message("Alice", " hello"));
    assert!(!sender_name_and_content_are_valid_message("Alice", " Party taking long rest."));
    assert!(!sender_name_and_content_are_valid_message("Alice", " Party taking short rest."));
    assert!(!sender_name_and_content_are_valid_message("Some Extension", " hello"));
    assert!(!sender_name_and_content_are_valid_message("Alice", " a > b"));
    assert!(!sender_name_and_content_are_valid_message("Alice", " [roll]"));
    assert!(sender_name_and_content_are_valid_message("Alice", " [Translation] hola"));
}

#[test]
fn banners_give_date_and_time() {
    let (date, time) = try_get_date_and_time_strings(
        r#"<a name="2023-03-05" /><b>Session started at 2023-03-05 / 16:27</b><br />"#,
    )
    .unwrap();
    assert_eq!(date, "2023-03-05");
    assert_eq!(time, "16:27");

    let (date, time) =
        try_get_date_and_time_strings(r#"<b>Chat log started at 5.3.2023 / 9:07:12</b><br />"#)
            .unwrap();
    assert_eq!(date, "2023-03-05");
    assert_eq!(time, "9:07");
    assert!(try_get_date_and_time_strings("<b>Something else</b>").is_none());
    assert!(try_get_date_and_time_strings("<i>nothing</i>").is_none());
}

#[test]
fn reader_numbers_and_stamps_posts() {
    let lines = vec![
        r#"<a name="2023-03-05" /><b>Session started at 2023-03-05 / 16:27</b><br />"#.to_string(),
        r##"<font color="#000000">Alice: Hello there</font><br />"##.to_string(),
        r##"<font color="#000000">Bob: attacks</font> [1d20+2 = 15]<br />"##.to_string(),
        r##"<font color="#000000">Party: Party taking long rest.</font>"##.to_string(),
        r#"<br />"#.to_string(),
        r##"<font color="#000000">Carol: bye</font><br />"##.to_string(),
    ];
    let mut log = FantasyGroundsChatLog::new(lines, None);

    let first = log.next_post().unwrap();
    assert_eq!(first.id, "1");
    assert_eq!(first.sender_name, "Alice");
    assert_eq!(first.content_raw, "Hello there");
    assert!(first.is_message);
    assert_eq!(first.timestamp, 1678033620000);

    let second = log.next_post().unwrap();
    assert_eq!(second.id, "2");
    assert!(!second.is_message);
    assert_eq!(second.rolls.len(), 1);
    assert_eq!(second.rolls[0].formula, "1d20+2");
    assert_eq!(second.rolls[0].outcome, "15");
    assert_eq!(second.timestamp, 1678033620000 + 60_000);

    let third = log.next_post().unwrap();
    assert_eq!(third.id, "3");
    assert_eq!(third.sender_name, "Carol");
    assert_eq!(third.timestamp, 1678033620000 + 120_000);

    assert!(log.next_post().is_none());
}

#[test]
fn blank_messages_are_dropped() {
    let lines = vec![
        r#"<a name="2023-03-05" /><b>Session started at 2023-03-05 / 16:27</b><br />"#.to_string(),
        r#"<font>Bob:</font><br />"#.to_string(),
        r#"<font>Bob:   </font><br />"#.to_string(),
        r#"<font>Bob: note: x</font><br />"#.to_string(),
    ];
    let mut log = FantasyGroundsChatLog::new(lines, None);
    let post = log.next_post().unwrap();
    assert_eq!(post.id, "1");
    assert_eq!(post.content_raw, "note: x");
    assert_eq!(post.timestamp, 1678033620000);
    assert!(log.next_post().is_none());
}
