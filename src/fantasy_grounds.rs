//! Transcripts of one HTML fragment per printed line, each ending in `<br />`.

use vstd::prelude::*;
use crate::clock::{parse_instant, parsed_instant, shifted, shift_by_offset};
use crate::dice::{decimal_digits, digits_of_u64};
use crate::html::{select, selection, text_nodes, fragment_texts, texts_view};
use crate::number_text::{float_text_check, is_float_text};
use crate::post::{Post, Roll};
use crate::text::{copy_range, find_first, first_occurrence, chars_of, string_from_chars, split_on, split_chars, split_seq, split_seq_exec, views_of, contains, contains_exec, is_prefix, is_suffix, starts_with, ends_with, remove_all, remove_all_exec, push_all, trim, trim_chars, lemma_split_seq_nonempty};

verus! {

/// What the scan of a bracketed annotation has seen so far.
pub ghost struct BracketScan {
    pub inside: bool,
    pub buf: Seq<char>,
    pub has_formula: bool,
    pub has_outcome: bool,
    pub closed: bool,
}

pub open spec fn is_roll_mark(c: char) -> bool {
    c == 'd' || c == 'g' || c == 'r'
}

/// One character: `[` opens the annotation, `]` closes it once an `=` has
/// followed a roll mark; inside, every roll mark reads as `d`.
pub open spec fn bracket_step(st: BracketScan, c: char) -> BracketScan {
    if st.closed {
        st
    } else if st.buf.len() == 0 && c == '[' {
        BracketScan { inside: true, ..st }
    } else if c == ']' && st.has_outcome {
        BracketScan { closed: true, ..st }
    } else if !st.inside {
        st
    } else if is_roll_mark(c) {
        BracketScan { has_formula: true, buf: st.buf.push('d'), ..st }
    } else {
        BracketScan { has_outcome: st.has_outcome || (c == '=' && st.has_formula), buf: st.buf.push(c), ..st }
    }
}

pub open spec fn bracket_scan(s: Seq<char>) -> BracketScan
    decreases s.len(),
{
    if s.len() == 0 {
        BracketScan { inside: false, buf: Seq::empty(), has_formula: false, has_outcome: false, closed: false }
    } else {
        bracket_step(bracket_scan(s.drop_last()), s.last())
    }
}

/// The formula and the total of a bracketed annotation `[formula = total]`.
pub open spec fn annotation_roll(text: Seq<char>) -> Option<(Seq<char>, Seq<char>)> {
    let st = bracket_scan(text);
    let parts = split_seq(st.buf, " = "@);
    if st.closed && parts.len() == 2 && is_float_text(parts[1]) {
        Some((parts[0], parts[1]))
    } else {
        None
    }
}

/// The roll of an annotation such as ` [1d20+2 = 15]`; no dice are listed.
pub fn try_get_roll_from_possible_roll_text(possible_roll_text: &str) -> (r: Option<Roll>)
    ensures
        r is Some <==> annotation_roll(possible_roll_text@) is Some,
        r matches Some(roll) ==> annotation_roll(possible_roll_text@) == Some((roll.formula@, roll.outcome@))
            && roll.single_rolls@.len() == 0,
{
    let s = chars_of(possible_roll_text);
    let mut inside = false;
    let mut buf: Vec<char> = Vec::new();
    let mut has_formula = false;
    let mut has_outcome = false;
    let mut closed = false;
    let mut i: usize = 0;
    while i < s.len()
        invariant
            i <= s.len(),
            s@ == possible_roll_text@,
            bracket_scan(s@.take(i as int)) == (BracketScan { inside, buf: buf@, has_formula, has_outcome, closed }),
        decreases s.len() - i,
    {
        let c = s[i];
        assert(s@.take(i + 1).drop_last() =~= s@.take(i as int));
        if closed {
        } else if buf.len() == 0 && c == '[' {
            inside = true;
        } else if c == ']' && has_outcome {
            closed = true;
        } else if !inside {
        } else if c == 'd' || c == 'g' || c == 'r' {
            has_formula = true;
            buf.push('d');
        } else {
            has_outcome = has_outcome || (c == '=' && has_formula);
            buf.push(c);
        }
        i = i + 1;
    }
    assert(s@.take(s.len() as int) =~= s@);
    if !closed {
        return None;
    }
    let parts = split_seq_exec(&buf, &chars_of(" = "));
    if parts.len() != 2 {
        return None;
    }
    assert(views_of(parts@)[0] == parts@[0]@ && views_of(parts@)[1] == parts@[1]@);
    if !float_text_check(parts[1].as_slice()) {
        return None;
    }
    Some(Roll {
        formula: string_from_chars(parts[0].as_slice()),
        outcome: string_from_chars(parts[1].as_slice()),
        single_rolls: Vec::new(),
    })
}

/// Sender and body of a line `sender: body`, split at the first colon: the
/// line must not open with `[`, and the sender must hold no escaped `>`.
pub open spec fn font_parts(t: Seq<char>) -> Option<(Seq<char>, Seq<char>)> {
    match first_occurrence(t, seq![':']) {
        Some(i) => if t[0] == '[' || contains(t.take(i), "&#62;"@) {
            None
        } else {
            Some((t.take(i), t.skip(i + 1)))
        },
        None => None,
    }
}

/// Sender and body of the text of a line's styled element; see `font_parts`.
pub fn try_get_sender_name_and_content_from_font_elem(font_text: &str) -> (r: Option<(String, String)>)
    ensures
        r is Some <==> font_parts(font_text@) is Some,
        r matches Some((a, b)) ==> font_parts(font_text@) == Some((a@, b@)),
{
    let t = chars_of(font_text);
    let mut colon: Vec<char> = Vec::new();
    colon.push(':');
    assert(colon@ =~= seq![':']);
    let i = match find_first(&t, &colon) {
        Some(i) => i,
        None => return None,
    };
    if t[0] == '[' {
        return None;
    }
    let sender = copy_range(&t, 0, i);
    let body = copy_range(&t, i + 1, t.len());
    assert(sender@ =~= t@.take(i as int));
    assert(body@ =~= t@.skip(i + 1));
    if contains_exec(&sender, &chars_of("&#62;")) {
        return None;
    }
    Some((string_from_chars(sender.as_slice()), string_from_chars(body.as_slice())))
}

/// A line is a message unless it holds markup (`>`, escaped or not), comes
/// from an extension, is an annotation other than a translation, or is one of
/// the rest announcements.
pub open spec fn is_valid_message(sender: Seq<char>, content: Seq<char>) -> bool {
    !(contains(sender, "&#62;"@) || contains(sender, ">"@) || contains(sender, "Extension"@)
        || contains(content, "&#62;"@) || contains(content, ">"@)
        || (is_prefix(" ["@, content) && !is_prefix(" [Translation]"@, content))
        || contains(content, "Party taking long rest."@) || contains(content, "Party taking short rest."@))
}

pub fn sender_name_and_content_are_valid_message(sender_name: &str, content_raw: &str) -> (r: bool)
    ensures
        r == is_valid_message(sender_name@, content_raw@),
{
    let sender = chars_of(sender_name);
    let content = chars_of(content_raw);
    if contains_exec(&sender, &chars_of("&#62;")) || contains_exec(&sender, &chars_of(">"))
        || contains_exec(&sender, &chars_of("Extension")) || contains_exec(&content, &chars_of("&#62;"))
        || contains_exec(&content, &chars_of(">"))
        || (starts_with(&content, &chars_of(" [")) && !starts_with(&content, &chars_of(" [Translation]")))
        || contains_exec(&content, &chars_of("Party taking long rest."))
        || contains_exec(&content, &chars_of("Party taking short rest.")) {
        return false;
    }
    true
}

pub open spec fn pad2(c: Seq<char>) -> Seq<char> {
    if c.len() < 2 {
        seq!['0'] + c
    } else {
        c
    }
}

/// Date (`YYYY-MM-DD`) and time (`HH:MM`) of a banner
/// `Chat log started at D.M.YYYY / H:MM...`.
pub open spec fn short_banner(text: Seq<char>) -> Option<(Seq<char>, Seq<char>)> {
    let rest = remove_all(text, "Chat log started at "@);
    let halves = split_seq(rest, " / "@);
    let d = split_on(halves[0], '.');
    let t = split_on(halves[1], ':');
    if !is_prefix("Chat log started at "@, text) || halves.len() != 2 || d.len() != 3 || t.len() < 2 {
        None
    } else {
        Some((pad2(d[2]) + "-"@ + pad2(d[1]) + "-"@ + pad2(d[0]), t[0] + ":"@ + t[1]))
    }
}

/// Date and time of a session-start banner (date in an anchor's `name`, time
/// after the last ` / ` of the first bold element), or of a short banner.
pub open spec fn banner_date_time(html: Seq<char>) -> Option<(Seq<char>, Seq<char>)> {
    let a = selection(html, "a"@, "name"@);
    let b = selection(html, "b"@, "name"@);
    if b.len() == 0 || b[0].0.len() == 0 {
        None
    } else if a.len() == 0 {
        short_banner(b[0].0.last())
    } else {
        match a[0].1 {
            None => None,
            Some(date) => if contains(b[0].0.last(), "Session started"@) {
                Some((date, split_seq(b[0].0.last(), " / "@).last()))
            } else {
                None
            },
        }
    }
}

fn pad2_exec(c: &Vec<char>) -> (r: Vec<char>)
    ensures
        r@ == pad2(c@),
{
    let mut r: Vec<char> = Vec::new();
    if c.len() < 2 {
        r.push('0');
    }
    push_all(&mut r, c.as_slice());
    proof {
        if c.len() >= 2 {
            assert(r@ =~= c@);
        } else {
            assert(r@ =~= seq!['0'] + c@);
        }
    }
    r
}

fn short_banner_exec(text: &Vec<char>) -> (r: Option<(Vec<char>, Vec<char>)>)
    ensures
        r is Some <==> short_banner(text@) is Some,
        r matches Some((d, t)) ==> short_banner(text@) == Some((d@, t@)),
{
    let prefix = chars_of("Chat log started at ");
    if !starts_with(text, &prefix) {
        return None;
    }
    let rest = remove_all_exec(text, &prefix);
    let halves = split_seq_exec(&rest, &chars_of(" / "));
    if halves.len() != 2 {
        return None;
    }
    assert(views_of(halves@)[0] == halves@[0]@ && views_of(halves@)[1] == halves@[1]@);
    let d = split_chars(&halves[0], '.');
    let t = split_chars(&halves[1], ':');
    if d.len() != 3 || t.len() < 2 {
        return None;
    }
    assert(views_of(d@)[0] == d@[0]@ && views_of(d@)[1] == d@[1]@ && views_of(d@)[2] == d@[2]@);
    assert(views_of(t@)[0] == t@[0]@ && views_of(t@)[1] == t@[1]@);
    let mut date = pad2_exec(&d[2]);
    push_all(&mut date, chars_of("-").as_slice());
    push_all(&mut date, pad2_exec(&d[1]).as_slice());
    push_all(&mut date, chars_of("-").as_slice());
    push_all(&mut date, pad2_exec(&d[0]).as_slice());
    let mut time: Vec<char> = Vec::new();
    push_all(&mut time, t[0].as_slice());
    push_all(&mut time, chars_of(":").as_slice());
    push_all(&mut time, t[1].as_slice());
    Some((date, time))
}

/// The date and time strings of a banner line; see `banner_date_time`.
pub fn try_get_date_and_time_strings(html: &str) -> (r: Option<(String, String)>)
    ensures
        r is Some <==> banner_date_time(html@) is Some,
        r matches Some((d, t)) ==> banner_date_time(html@) == Some((d@, t@)),
{
    let anchors = select(html, "a", "name");
    let bolds = select(html, "b", "name");
    if bolds.len() == 0 || bolds[0].texts.len() == 0 {
        return None;
    }
    let last = bolds[0].texts.len() - 1;
    let b_text = chars_of(bolds[0].texts[last].as_str());
    assert(b_text@ == texts_view(bolds@[0].texts@)[last as int]);
    if anchors.len() == 0 {
        return match short_banner_exec(&b_text) {
            Some((d, t)) => Some((string_from_chars(d.as_slice()), string_from_chars(t.as_slice()))),
            None => None,
        };
    }
    let date = match &anchors[0].attr {
        Some(d) => d.clone(),
        None => return None,
    };
    if !contains_exec(&b_text, &chars_of("Session started")) {
        return None;
    }
    let pieces = split_seq_exec(&b_text, &chars_of(" / "));
    proof {
        lemma_split_seq_nonempty(b_text@, " / "@, 0, 0);
    }
    let k = pieces.len() - 1;
    assert(views_of(pieces@)[k as int] == pieces@[k as int]@);
    Some((date, string_from_chars(pieces[k].as_slice())))
}

/// What one line of the transcript is.
pub ghost enum LineKind {
    /// A banner, with the date and time it gives if it gives them.
    Banner(Option<(Seq<char>, Seq<char>)>),
    /// Nothing to report.
    Dropped,
    /// A post: sender, body, and the roll's formula and total for a roll.
    Entry(Seq<char>, Seq<char>, Option<(Seq<char>, Seq<char>)>),
}

/// The last text node of `texts`, or the empty text.
pub open spec fn last_or_empty(texts: Seq<Seq<char>>) -> Seq<char> {
    if texts.len() == 0 {
        Seq::empty()
    } else {
        texts.last()
    }
}

/// A line without a styled element is a banner. Otherwise its styled text is
/// `sender: body`; a bracketed annotation as the line's last text makes it a
/// roll if it is well formed and drops it if not; a plain line is a message
/// where `is_valid_message` holds and its body is not blank.
pub open spec fn line_kind(html: Seq<char>) -> LineKind {
    let fonts = selection(html, "font"@, "name"@);
    if fonts.len() == 0 {
        LineKind::Banner(banner_date_time(html))
    } else {
        match font_parts(last_or_empty(fonts[0].0)) {
            None => LineKind::Dropped,
            Some((sender, body)) => {
                let last = last_or_empty(fragment_texts(html));
                if fragment_texts(html).len() > 0 && is_prefix(" ["@, last) && is_suffix("]"@, last) {
                    match annotation_roll(last) {
                        None => LineKind::Dropped,
                        Some(roll) => LineKind::Entry(trim(sender), trim(body), Some(roll)),
                    }
                } else if is_valid_message(sender, body) && trim(body).len() > 0 {
                    LineKind::Entry(trim(sender), trim(body), None)
                } else {
                    LineKind::Dropped
                }
            },
        }
    }
}

pub open spec fn banner_instant(date: Seq<char>, time: Seq<char>, offset: i32) -> Option<i64> {
    match parsed_instant(date + " "@ + time + " +0000"@, "%Y-%m-%d %H:%M %z"@) {
        Some(m) => shifted(m, offset),
        None => None,
    }
}

/// What the reader holds between lines: the markup gathered, the number of
/// the next post and the clock.
pub ghost struct FgState {
    pub html: Seq<char>,
    pub id: i64,
    pub clock: Option<i64>,
}

/// The gathered line `st.html` becomes a post: it is an entry, the clock is
/// set, and neither the number nor the clock runs out of range.
pub open spec fn line_gives_post(st: FgState) -> bool {
    &&& line_kind(st.html) is Entry
    &&& st.clock is Some
    &&& 0 <= st.id < i64::MAX
    &&& st.clock->0 <= i64::MAX - 60_000
}

/// The state after the gathered line is handled: a post advances the number
/// and the clock by one minute; a banner sets the clock; the markup is
/// cleared.
pub open spec fn state_after_line(st: FgState, offset: i32) -> FgState {
    if line_gives_post(st) {
        FgState { html: Seq::empty(), id: (st.id + 1) as i64, clock: Some((st.clock->0 + 60_000) as i64) }
    } else {
        match line_kind(st.html) {
            LineKind::Banner(Some((d, t))) => FgState {
                html: Seq::empty(),
                clock: match banner_instant(d, t, offset) {
                    Some(m) => Some(m),
                    None => st.clock,
                },
                ..st
            },
            _ => FgState { html: Seq::empty(), ..st },
        }
    }
}

/// `p` is the post of the entry `h`, numbered `id` and stamped `clock`.
pub open spec fn fg_post_matches(p: Post, h: Seq<char>, id: i64, clock: i64) -> bool {
    match line_kind(h) {
        LineKind::Entry(sender, body, roll) => {
            &&& p.timestamp == clock
            &&& p.id@ == decimal_digits(id as nat)
            &&& p.sender_name@ == sender
            &&& p.content_raw@ == body
            &&& p.is_message == (roll is None)
            &&& p.rolls@.len() == (if roll is None { 0int } else { 1int })
            &&& (roll matches Some((f, o)) ==> p.rolls@[0].formula@ == f && p.rolls@[0].outcome@ == o
                && p.rolls@[0].single_rolls@.len() == 0)
        },
        _ => false,
    }
}

/// The lines from the `k`-th on, each added to the gathered markup; markup
/// that ends in `<br />` is handled as a line. Gives the state, the next line
/// to read, and the line that gave a post with the state it was read in.
pub open spec fn fg_scan(st: FgState, lines: Seq<Seq<char>>, k: int, offset: i32) -> (FgState, int, Option<FgState>)
    decreases lines.len() - k,
{
    if k < 0 || k >= lines.len() {
        (st, k, None)
    } else {
        let st1 = FgState { html: st.html + lines[k], ..st };
        if !is_suffix("<br />"@, st1.html) {
            fg_scan(st1, lines, k + 1, offset)
        } else if line_gives_post(st1) {
            (state_after_line(st1, offset), k + 1, Some(st1))
        } else {
            fg_scan(state_after_line(st1, offset), lines, k + 1, offset)
        }
    }
}

proof fn lemma_fg_scan_found(st: FgState, lines: Seq<Seq<char>>, k: int, offset: i32)
    requires
        fg_scan(st, lines, k, offset).2 is Some,
    ensures
        ({
            let (after, _, found) = fg_scan(st, lines, k, offset);
            line_gives_post(found->0) && after == state_after_line(found->0, offset)
        }),
    decreases lines.len() - k,
{
    if 0 <= k < lines.len() {
        let st1 = FgState { html: st.html + lines[k], ..st };
        if !is_suffix("<br />"@, st1.html) {
            lemma_fg_scan_found(st1, lines, k + 1, offset);
        } else if !line_gives_post(st1) {
            lemma_fg_scan_found(state_after_line(st1, offset), lines, k + 1, offset);
        }
    }
}

/// After a post, the next number is one more than the post's, and the clock
/// stands one minute after the post's time: a later post read with no banner
/// in between is numbered next and stamped a minute later.
pub proof fn lemma_post_advances_clock(before: FantasyGroundsChatLog, after: FantasyGroundsChatLog, p: Post)
    requires
        fg_next(before, after, Some(p)),
    ensures
        after.last_parsed_datetime == Some((p.timestamp + 60_000) as i64),
        p.id@ == decimal_digits((after.current_message_id - 1) as nat),
        after.current_message_html@.len() == 0,
{
    lemma_fg_scan_found(fg_state(before), texts_view(before.lines@), before.next_line as int, before.timezone_offset);
    let found = fg_scan(fg_state(before), texts_view(before.lines@), before.next_line as int, before.timezone_offset).2->0;
    assert(line_kind(found.html) is Entry);
}

pub open spec fn fg_state(r: FantasyGroundsChatLog) -> FgState {
    FgState { html: r.current_message_html@, id: r.current_message_id, clock: r.last_parsed_datetime }
}

/// What one call of `next_post` does: it reads as `fg_scan` says from the next
/// line, and gives the post of the line where reading stopped, if any.
pub open spec fn fg_next(before: FantasyGroundsChatLog, after: FantasyGroundsChatLog, r: Option<Post>) -> bool {
    let (st, k, found) = fg_scan(fg_state(before), texts_view(before.lines@), before.next_line as int, before.timezone_offset);
    &&& after.lines == before.lines
    &&& after.timezone_offset == before.timezone_offset
    &&& after.next_line <= after.lines.len()
    &&& fg_state(after) == st
    &&& after.next_line == k
    &&& match found {
        Some(line) => r matches Some(p) && fg_post_matches(p, line.html, line.id, line.clock->0),
        None => r is None,
    }
}

/// A transcript read forward once, line by line. Posts are numbered from 1;
/// as lines carry no time, each post is stamped one minute after the one
/// before it, from the last banner.
pub struct FantasyGroundsChatLog {
    pub current_message_id: i64,
    pub timezone_offset: i32,
    pub current_message_html: Vec<char>,
    pub last_parsed_datetime: Option<i64>,
    pub lines: Vec<String>,
    pub next_line: usize,
}

impl FantasyGroundsChatLog {
    /// A reader of `lines`, with the clock `timezone_offset` hours east of UTC
    /// (UTC where none is given).
    pub fn new(lines: Vec<String>, timezone_offset: Option<i32>) -> (r: FantasyGroundsChatLog)
        ensures
            r.lines@ == lines@,
            r.next_line == 0,
            r.current_message_id == 1,
            r.timezone_offset == (match timezone_offset { Some(h) => h, None => 0 }),
            r.current_message_html@.len() == 0,
            r.last_parsed_datetime is None,
    {
        let offset = match timezone_offset {
            Some(h) => h,
            None => 0,
        };
        FantasyGroundsChatLog {
            current_message_id: 1,
            timezone_offset: offset,
            current_message_html: Vec::new(),
            last_parsed_datetime: None,
            lines,
            next_line: 0,
        }
    }

    /// Sets the clock from a banner's date and time, where they read.
    pub fn try_update_last_parsed_datetime(&mut self, date_str: &str, time_str: &str)
        ensures
            final(self).last_parsed_datetime == (match banner_instant(date_str@, time_str@, old(self).timezone_offset) {
                Some(m) => Some(m),
                None => old(self).last_parsed_datetime,
            }),
            final(self).current_message_id == old(self).current_message_id,
            final(self).timezone_offset == old(self).timezone_offset,
            final(self).current_message_html == old(self).current_message_html,
            final(self).lines == old(self).lines,
            final(self).next_line == old(self).next_line,
    {
        let mut text = chars_of(date_str);
        push_all(&mut text, chars_of(" ").as_slice());
        push_all(&mut text, chars_of(time_str).as_slice());
        push_all(&mut text, chars_of(" +0000").as_slice());
        let text = string_from_chars(text.as_slice());
        if let Some(m) = parse_instant(text.as_str(), "%Y-%m-%d %H:%M %z") {
            if let Some(v) = shift_by_offset(m, self.timezone_offset) {
                self.last_parsed_datetime = Some(v);
            }
        }
    }

    /// The post of the line gathered so far, which it then clears. A banner
    /// sets the clock; an entry becomes a post with the next number and the
    /// clock's time, then advances both. No post is made before the first
    /// banner.
    pub fn post_from_current_message_html(&mut self) -> (r: Option<Post>)
        ensures
            fg_state(*final(self)) == state_after_line(fg_state(*old(self)), old(self).timezone_offset),
            final(self).timezone_offset == old(self).timezone_offset,
            final(self).lines == old(self).lines,
            final(self).next_line == old(self).next_line,
            r is Some <==> line_gives_post(fg_state(*old(self))),
            r matches Some(p) ==> fg_post_matches(p, old(self).current_message_html@, old(self).current_message_id,
                old(self).last_parsed_datetime->0),
    {
        let html = string_from_chars(self.current_message_html.as_slice());
        self.current_message_html = Vec::new();
        let fonts = select(html.as_str(), "font", "name");
        if fonts.len() == 0 {
            if let Some((date_str, time_str)) = try_get_date_and_time_strings(html.as_str()) {
                self.try_update_last_parsed_datetime(date_str.as_str(), time_str.as_str());
            }
            return None;
        }
        let font_text = if fonts[0].texts.len() == 0 {
            Vec::new()
        } else {
            let k = fonts[0].texts.len() - 1;
            assert(texts_view(fonts@[0].texts@)[k as int] == fonts@[0].texts@[k as int]@);
            chars_of(fonts[0].texts[k].as_str())
        };
        assert(font_text@ == last_or_empty(selection(html@, "font"@, "name"@)[0].0));
        let font_string = string_from_chars(font_text.as_slice());
        let (sender, body) = match try_get_sender_name_and_content_from_font_elem(font_string.as_str()) {
            Some(parts) => parts,
            None => return None,
        };
        let texts = text_nodes(html.as_str());
        let mut rolls: Vec<Roll> = Vec::new();
        let mut annotated = false;
        if texts.len() > 0 {
            let k = texts.len() - 1;
            assert(texts_view(texts@)[k as int] == texts@[k as int]@);
            let last = chars_of(texts[k].as_str());
            if starts_with(&last, &chars_of(" [")) && ends_with(&last, &chars_of("]")) {
                annotated = true;
                match try_get_roll_from_possible_roll_text(texts[k].as_str()) {
                    Some(roll) => rolls.push(roll),
                    None => return None,
                }
            }
        }
        let trimmed_body = trim_chars(chars_of(body.as_str()).as_slice());
        if !annotated && (!sender_name_and_content_are_valid_message(sender.as_str(), body.as_str()) || trimmed_body.len() == 0) {
            return None;
        }
        let timestamp = match self.last_parsed_datetime {
            Some(t) => t,
            None => return None,
        };
        if self.current_message_id < 0 || self.current_message_id == i64::MAX || timestamp > i64::MAX - 60_000 {
            return None;
        }
        let id = string_from_chars(digits_of_u64(self.current_message_id as u64).as_slice());
        let post = Post {
            id,
            sender_name: string_from_chars(trim_chars(chars_of(sender.as_str()).as_slice()).as_slice()),
            timestamp,
            content_raw: string_from_chars(trimmed_body.as_slice()),
            is_message: !annotated,
            rolls,
        };
        self.current_message_id = self.current_message_id + 1;
        self.last_parsed_datetime = Some(timestamp + 60_000);
        Some(post)
    }

    /// The next post of the transcript: lines are gathered until one ends in
    /// `<br />`, and each gathered line is handled as
    /// `post_from_current_message_html` says. `None` once the lines run out.
    pub fn next_post(&mut self) -> (r: Option<Post>)
        requires
            old(self).next_line <= old(self).lines.len(),
        ensures
            fg_next(*old(self), *final(self), r),
    {
        let ghost lines = texts_view(self.lines@);
        let ghost goal = fg_scan(fg_state(*self), lines, self.next_line as int, self.timezone_offset);
        let end = chars_of("<br />");
        while self.next_line < self.lines.len()
            invariant
                self.lines == old(self).lines,
                lines == texts_view(self.lines@),
                end@ == "<br />"@,
                self.timezone_offset == old(self).timezone_offset,
                goal == fg_scan(fg_state(*old(self)), lines, old(self).next_line as int, old(self).timezone_offset),
                fg_scan(fg_state(*self), lines, self.next_line as int, self.timezone_offset) == goal,
                old(self).next_line <= self.next_line <= self.lines.len(),
            decreases self.lines.len() - self.next_line,
        {
            assert(lines[self.next_line as int] == self.lines@[self.next_line as int]@);
            let line = chars_of(self.lines[self.next_line].as_str());
            self.next_line = self.next_line + 1;
            push_all(&mut self.current_message_html, line.as_slice());
            if ends_with(&self.current_message_html, &end) {
                if let Some(post) = self.post_from_current_message_html() {
                    return Some(post);
                }
            }
        }
        None
    }
}

} // verus!
