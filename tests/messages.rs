use tabletop_logs::chat_log::{log_format, ChatLog, LogFormat};
use tabletop_logs::fantasy_grounds::FantasyGroundsChatLog;
use tabletop_logs::messages::{self, fill_template};
use tabletop_logs::number_text::{float_text_check, parse_int_text};
use tabletop_logs::records::RandomMessageTemplates;

#[test]
fn get_random_message() {
    let templates = RandomMessageTemplates {
        super_templates: vec!["%a\nand then %b".to_string()],
        templates: vec!["%x ahead".to_string()],
        words: vec!["dog".to_string()],
    };
    for _ in 0..20 {
        let message = messages::get_random_message(&templates).unwrap();
        assert!(["dog\nand then dog", "dog ahead"].contains(&message.as_str()));
    }
}

#[test]
fn random_message_needs_words() {
    let templates = RandomMessageTemplates {
        super_templates: vec!["%a %b".to_string()],
        templates: vec!["%x".to_string()],
        words: vec![],
    };
    assert!(messages::get_random_message(&templates).is_none());
}

#[test]
fn templates_replace_every_placeholder() {
    assert_eq!(fill_template("%x and %x", "%x", "cat"), "cat and cat");
    assert_eq!(fill_template("none", "%x", "cat"), "none");
}

#[test]
fn formats_by_file_name() {
    assert_eq!(log_format("fnd_campaign.db"), Some(LogFormat::Foundry));
    assert_eq!(log_format("r20_curse_of_strahd.html"), Some(LogFormat::Roll20));
    assert_eq!(log_format("fg_log.html"), Some(LogFormat::FantasyGrounds));
    assert_eq!(log_format("fnd_campaign.html"), None);
    assert_eq!(log_format("campaign.db"), None);
}

#[test]
fn chat_log_dispatches() {
    let lines = vec![
        r#"<a name="2023-03-05" /><b>Session started at 2023-03-05 / 16:27</b><br />"#.to_string(),
        r#"<font>Alice: hi</font><br />"#.to_string(),
    ];
    let mut log = ChatLog::FantasyGrounds(FantasyGroundsChatLog::new(lines, Some(1)));
    let post = log.next_post().unwrap();
    assert_eq!(post.sender_name, "Alice");
    assert_eq!(post.timestamp, 1678033620000 - 3_600_000);
    assert!(log.next_post().is_none());
}

#[test]
fn float_texts() {
    for ok in ["15", "-2.5", "+.5", "3.", "1e5", "2.5E-3", "inf", "-Infinity", "NaN"] {
        assert!(float_text_check(&ok.chars().collect::<Vec<_>>()), "{ok}");
        assert!(ok.parse::<f64>().is_ok());
    }
    for bad in ["", ".", "1.2.3", "e5", "1e", "x", " 15", "1_000"] {
        assert!(!float_text_check(&bad.chars().collect::<Vec<_>>()), "{bad}");
        assert!(bad.parse::<f64>().is_err());
    }
}

#[test]
fn int_texts() {
    let read = |s: &str| parse_int_text(&s.chars().collect::<Vec<_>>());
    assert_eq!(read("13"), Some(13));
    assert_eq!(read("-7"), Some(-7));
    assert_eq!(read("+7"), Some(7));
    assert_eq!(read("9223372036854775807"), Some(i64::MAX));
    assert_eq!(read("-9223372036854775808"), Some(i64::MIN));
    assert_eq!(read("9223372036854775808"), None);
    assert_eq!(read(""), None);
    assert_eq!(read("-"), None);
    assert_eq!(read("1.0"), None);
}
