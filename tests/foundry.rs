use tabletop_logs::foundry::{post_from_record, roll_from_payload, FoundryChatLog, FoundryRecord, FoundryRoll, FoundryTerm};

fn die(faces: i64, results: Vec<i64>) -> FoundryTerm {
    FoundryTerm { class: "Die".to_string(), faces: Some(faces), results: Some(results) }
}

fn record(id: &str, type_number: u8, whisper: Vec<String>, rolls: Vec<FoundryRoll>) -> FoundryRecord {
    FoundryRecord {
        id: id.to_string(),
        type_number,
        speaker_alias: "TeStId12345".to_string(),
        timestamp: 1678033620123,
        content: "hello".to_string(),
        whisper,
        rolls,
    }
}

fn attack() -> FoundryRoll {
    FoundryRoll {
        formula: "2d6 + 3".to_string(),
        terms: vec![
            die(6, vec![4, 2]),
            FoundryTerm { class: "OperatorTerm".to_string(), faces: None, results: None },
            FoundryTerm { class: "NumericTerm".to_string(), faces: None, results: None },
        ],
        total: "9".to_string(),
    }
}

#[test]
fn die_terms_expand_to_single_rolls() {
    let roll = roll_from_payload(&attack()).unwrap();
    assert_eq!(roll.formula, "2d6 + 3");
    assert_eq!(roll.outcome, "9");
    assert_eq!(roll.single_rolls.len(), 2);
    assert_eq!(roll.single_rolls[0].faces, 6);
    assert_eq!(roll.single_rolls[0].outcome, 4);
    assert_eq!(roll.single_rolls[1].outcome, 2);
}

#[test]
fn incomplete_die_term_is_refused() {
    let raw = FoundryRoll {
        formula: "1d6".to_string(),
        terms: vec![FoundryTerm { class: "Die".to_string(), faces: Some(6), results: None }],
        total: "3".to_string(),
    };
    assert!(roll_from_payload(&raw).is_none());
}

#[test]
fn item_cards_and_whispers_are_not_posts() {
    assert!(post_from_record(&record("a", 0, vec![], vec![])).is_none());
    assert!(post_from_record(&record("b", 1, vec!["gm".to_string()], vec![])).is_none());
}

#[test]
fn record_without_rolls_is_a_message() {
    let post = post_from_record(&record("c", 1, vec![], vec![])).unwrap();
    assert!(post.is_message);
    assert_eq!(post.id, "c");
    assert_eq!(post.sender_name, "TeStId12345");
    assert_eq!(post.timestamp, 1678033620123);
    assert_eq!(post.content_raw, "hello");
    assert!(post.rolls.is_empty());
}

#[test]
fn record_with_rolls_is_not_a_message() {
    let post = post_from_record(&record("d", 5, vec![], vec![attack()])).unwrap();
    assert!(!post.is_message);
    assert_eq!(post.rolls.len(), 1);
    assert_eq!(post.rolls[0].single_rolls.len(), 2);
}

#[test]
fn reader_skips_undecoded_and_filtered_lines() {
    let records = vec![
        None,
        Some(record("a", 0, vec![], vec![])),
        Some(record("b", 1, vec![], vec![])),
        Some(record("c", 1, vec!["x".to_string()], vec![])),
        Some(record("d", 5, vec![], vec![attack()])),
    ];
    let mut log = FoundryChatLog::new(records);
    assert_eq!(log.next_post().unwrap().id, "b");
    assert_eq!(log.next_post().unwrap().id, "d");
    assert!(log.next_post().is_none());
    assert!(log.next_post().is_none());
}
