use tabletop_logs::roll20::{fragment_is_private, get_rolls_from_fragment, Roll20ChatLog, ScanEvent, TagScanner};

fn chars(s: &str) -> Vec<char> {
    s.chars().collect()
}

#[test]
fn get_roll_from_plain() {
    let raw_roll_html = r#"
            <div class="message general" data-messageid="-Tes--1-tEsTIDFFFFFF">
                <div class="sheet-rolltemplate-simple">
                <div class="sheet-container">
                    <div class="sheet-result">
                    <div class="sheet-solo">
                        <span
                        ><span
                            class="inlinerollresult showtip tipsy-n-right"
                            title='Rolling 1d20+0[Mods] = (<span class="basicdiceroll">13</span>)+0'
                            >13</span
                        ></span
                        >
                    </div>
                    </div>
                    <div class="sheet-label">
                    <span>INSIGHT <span>(0)</span></span>
                    </div>
                </div>
                </div>
            </div>"#;

    let rolls = get_rolls_from_fragment(raw_roll_html);
    assert_eq!(rolls.len(), 1);
    assert_eq!(rolls[0].outcome, "13");
    assert_eq!(rolls[0].single_rolls.len(), 1);
    assert_eq!(rolls[0].single_rolls[0].faces, 20);
    assert_eq!(rolls[0].single_rolls[0].outcome, 13);

    let raw_roll_html = r#"
            <div
                class="message rollresult player--tEsTiD12345"
                data-messageid="-Tes--1-tEsTIDFFFFFF"
                data-playerid="-tEsTiD12345"
            >
                <div class="formula" style="margin-bottom: 3px">rolling 4d6k3</div>
                <div class="clear"></div>
                <div class="formula formattedformula">
                <div class="dicegrouping" data-groupindex="0">
                    (
                    <div data-origindex="0" class="diceroll d6">
                    <div class="dicon">
                        <div class="didroll">3</div>
                        <div class="backing"></div>
                    </div>
                    +
                    </div>
                    <div data-origindex="1" class="diceroll d6 critfail">
                    <div class="dicon">
                        <div class="didroll">1</div>
                        <div class="backing"></div>
                    </div>
                    +
                    </div>
                    <div data-origindex="2" class="diceroll d6 dropped critfail">
                    <div class="dicon">
                        <div class="didroll">1</div>
                        <div class="backing"></div>
                    </div>
                    +
                    </div>
                    <div data-origindex="3" class="diceroll d6">
                    <div class="dicon">
                        <div class="didroll">3</div>
                        <div class="backing"></div>
                    </div>
                    </div>
                    )
                </div>
                <div class="clear"></div>
                </div>
                <div class="clear"></div>
                <strong>=</strong>
                <div class="rolled">7</div>
            </div>"#;

    let rolls = get_rolls_from_fragment(raw_roll_html);
    assert_eq!(rolls.len(), 1);
    assert_eq!(rolls[0].outcome, "7");
    assert_eq!(rolls[0].single_rolls.len(), 4);
    assert_eq!(rolls[0].single_rolls[0].faces, 6);
    assert_eq!(rolls[0].single_rolls[0].outcome, 3);
    assert_eq!(rolls[0].single_rolls[1].outcome, 1);
    assert_eq!(rolls[0].single_rolls[2].outcome, 1);
    assert_eq!(rolls[0].single_rolls[3].outcome, 3);
    assert_eq!(rolls[0].formula, "4d6k3");
}

#[test]
fn get_roll_from_macro() {
    let raw_roll_html = r#"
            <div class="message general you" data-messageid="-Tes--1-tEsTIDFFFFFG">
                <div class="spacer"></div>
                <div class="avatar" aria-hidden="true"><img src="/users/avatar/test/none" /></div>
                <span class="tstamp" aria-hidden="true">4:27PM</span><span class="by">cool_guy 420:</span>
                <div class="sheet-rolltemplate-npcfullatk">
                <div class="sheet-container">
                    <div class="sheet-row sheet-header">
                    <span>Force Ballista</span>
                    </div>
                    <div class="sheet-row sheet-subheader">
                    <span class="sheet-italics">Cannon</span>
                    </div>
                    <div class="sheet-arrow-right"></div>
                    <div class="sheet-row">
                    <span class="sheet-italics sheet-translated" data-i18n="attack:-u">ATTACK:</span
                    ><span
                        ><span
                        class="inlinerollresult showtip tipsy-n-right"
                        title='Rolling 1d20+(15+0) = (<span class="basicdiceroll">10</span>)+(15+0)'
                        >25</span
                        ></span
                    >
                    </div>
                </div>
                <div class="sheet-container sheet-dmgcontainer sheet-damagetemplate">
                    <span class="sheet-italics sheet-translated" data-i18n="dmg:-u">DAMAGE:</span>
                    <span>
                    <span
                        class="inlinerollresult showtip tipsy-n-right"
                        title='Rolling 3d8+0 = (<span class="basicdiceroll">7</span>+<span class="basicdiceroll">6</span>+<span class="basicdiceroll">5</span>)+0'
                        >18</span
                    >

                    force damage
                    </span>
                    <div class="sheet-row">
                    <span class="sheet-desc">120 ft range, single target, ranged spell attack</span>
                    </div>
                </div>
                </div>
            </div>
            </div>"#;

    let rolls = get_rolls_from_fragment(raw_roll_html);
    assert_eq!(rolls.len(), 2);
    assert_eq!(rolls[0].outcome, "25");
    assert_eq!(rolls[1].outcome, "18");
    assert_eq!(rolls[0].single_rolls.len(), 1);
    assert_eq!(rolls[0].single_rolls[0].faces, 20);
    assert_eq!(rolls[0].single_rolls[0].outcome, 10);
    assert_eq!(rolls[1].single_rolls.len(), 3);
    assert_eq!(rolls[1].single_rolls[0].faces, 8);
    assert_eq!(rolls[1].single_rolls[0].outcome, 7);
    assert_eq!(rolls[1].single_rolls[1].outcome, 6);
    assert_eq!(rolls[1].single_rolls[2].outcome, 5);
    assert_eq!(rolls[0].formula, "1d20+(15+0)");
}

#[test]
fn private_fragment_is_detected() {
    assert!(fragment_is_private(r#"<div class="message private" data-messageid="x">psst</div>"#));
    assert!(!fragment_is_private(r#"<div class="message general" data-messageid="x">hi</div>"#));
}

fn transcript() -> Vec<String> {
    vec![
        r#"<div class="content" id="textchat">"#.to_string(),
        r#"<div class="message general" data-messageid="-A"><span class="tstamp">March 05, 2023 4:27PM</span><span class="by">Alice:</span>Hello   there</div>"#.to_string(),
        r#"<div class="message general" data-messageid="-B"><span class="tstamp">4:30PM</span>Second line</div>"#.to_string(),
        r#"<div class="message private" data-messageid="-C"><span class="by">Bob:</span>secret</div>"#.to_string(),
        r#"<div class="message general" data-messageid="-D">Third</div>"#.to_string(),
        "</div>".to_string(),
    ]
}

#[test]
fn reader_carries_sender_forward() {
    let mut log = Roll20ChatLog::new(transcript(), None);
    let first = log.next_post().unwrap();
    assert_eq!(first.id, "-A");
    assert_eq!(first.sender_name, "Alice");
    assert_eq!(first.content_raw, "Hello there");
    assert!(first.is_message);
    assert_eq!(first.timestamp, 1678033620000);

    let second = log.next_post().unwrap();
    assert_eq!(second.id, "-B");
    assert_eq!(second.sender_name, "Alice");
    assert_eq!(second.content_raw, "Second line");
    assert_eq!(second.timestamp, 1678033800000);

    let third = log.next_post().unwrap();
    assert_eq!(third.id, "-D");
    assert_eq!(third.sender_name, "Bob");

    assert!(log.next_post().is_none());
}

#[test]
fn reader_applies_timezone_offset() {
    let mut log = Roll20ChatLog::new(transcript(), Some(-6));
    let first = log.next_post().unwrap();
    assert_eq!(first.timestamp, 1678033620000 + 6 * 3_600_000);
}

#[test]
fn scanner_counts_div_depth() {
    let mut scanner = TagScanner::new();
    scanner.div_depth = 0;
    let mut events = vec![];
    for g in "<div a><span>x</span></div>".chars() {
        events.push(scanner.scan_grapheme(&vec![g], false));
    }
    assert_eq!(events.iter().filter(|e| **e == ScanEvent::EntryClosed).count(), 1);
    assert_eq!(*events.last().unwrap(), ScanEvent::EntryClosed);
    assert_eq!(scanner.div_depth, 0);
    assert!(scanner.current_tag.is_empty());
    assert_eq!(scanner.scan_grapheme(&chars("<"), false), ScanEvent::Nothing);
    for g in "/div".chars() {
        scanner.scan_grapheme(&vec![g], false);
    }
    assert_eq!(scanner.scan_grapheme(&chars(">"), false), ScanEvent::TranscriptEnd);
}

#[test]
fn scanner_skips_first_bracket_on_title_lines() {
    let mut scanner = TagScanner::new();
    scanner.div_depth = 1;
    scanner.scan_grapheme(&chars("<"), true);
    scanner.scan_grapheme(&chars("<"), true);
    assert_eq!(scanner.current_tag, chars("<"));
    assert!(scanner.title_bracket_skipped);
    scanner.scan_grapheme(&chars("<"), true);
    assert_eq!(scanner.current_tag, chars("<<"));
    assert_eq!(scanner.scan_grapheme(&chars(">"), true), ScanEvent::Nothing);
    assert_eq!(scanner.current_tag, chars("<<>"));
}

#[test]
fn transcript_is_drained_once() {
    let mut lines = transcript();
    lines.push(r#"<div class="message general" data-messageid="-E"><span class="by">Eve:</span>late</div>"#.to_string());
    let mut log = Roll20ChatLog::new(lines, None);
    let mut ids = vec![];
    while let Some(post) = log.next_post() {
        ids.push(post.id);
    }
    assert_eq!(ids, vec!["-A", "-B", "-D"]);
    assert!(log.finished);
    assert!(log.next_post().is_none());
}

#[test]
fn bare_time_uses_the_local_date() {
    let lines = vec![
        r#"<div class="content" id="textchat">"#.to_string(),
        r#"<div class="message general" data-messageid="-A"><span class="tstamp">March 05, 2023 11:30PM</span><span class="by">Alice:</span>late</div>"#.to_string(),
        r#"<div class="message general" data-messageid="-B"><span class="tstamp">11:45PM</span>later</div>"#.to_string(),
        "</div>".to_string(),
    ];
    let mut log = Roll20ChatLog::new(lines, Some(-6));
    let first = log.next_post().unwrap();
    let second = log.next_post().unwrap();
    assert_eq!(second.timestamp - first.timestamp, 15 * 60_000);
}
