//! HTML transcripts of nested `<div>` entries, too large and too loosely
//! formed to parse whole. Entries are cut out by counting `div` tags, one
//! grapheme at a time, and each is then queried on its own.

use vstd::prelude::*;
use crate::clock::{format_date, formatted_date, is_time_of_day, parse_instant, parsed_instant, reads_as_time_of_day, shift_by_offset, shifted};
use crate::dice::{decompose, decomposition, RollSingle};
use crate::expression::count_char;
use crate::fantasy_grounds::last_or_empty;
use crate::html::{element_view, elements_view, opt_view, select, selection, texts_view, SelectedElement};
use crate::number_text::{float_text_check, int_text_value, is_float_text, parse_int_text};
use crate::post::{Post, Roll};
use crate::text::{
    chars_of, ends_with, find_first, first_occurrence, is_prefix, is_suffix, push_all, remove_all,
    remove_all_exec, same_chars, squeeze_white, squeeze_white_exec, starts_with, string_from_chars, trim,
    trim_chars,
};

verus! {

/// The texts one after the other.
pub open spec fn joined(texts: Seq<Seq<char>>) -> Seq<char>
    decreases texts.len(),
{
    if texts.len() == 0 {
        Seq::empty()
    } else {
        joined(texts.drop_last()) + texts.last()
    }
}

fn join_texts(v: &Vec<String>) -> (r: Vec<char>)
    ensures
        r@ == joined(texts_view(v@)),
{
    let mut r: Vec<char> = Vec::new();
    let mut i: usize = 0;
    while i < v.len()
        invariant
            i <= v.len(),
            r@ == joined(texts_view(v@).take(i as int)),
        decreases v.len() - i,
    {
        push_all(&mut r, chars_of(v[i].as_str()).as_slice());
        assert(texts_view(v@).take(i + 1).drop_last() =~= texts_view(v@).take(i as int));
        i = i + 1;
    }
    assert(texts_view(v@).take(v.len() as int) =~= texts_view(v@));
    r
}

/// The joined text of each element.
pub open spec fn element_texts(els: Seq<(Seq<Seq<char>>, Option<Seq<char>>)>) -> Seq<Seq<char>> {
    els.map_values(|e: (Seq<Seq<char>>, Option<Seq<char>>)| joined(e.0))
}

/// The values of texts that all read as integers; `None` where one does not.
pub open spec fn int_values(ts: Seq<Seq<char>>) -> Option<Seq<i64>>
    decreases ts.len(),
{
    if ts.len() == 0 {
        Some(Seq::empty())
    } else {
        match (int_values(ts.drop_last()), int_text_value(ts.last())) {
            (Some(v), Some(x)) => Some(v.push(x)),
            _ => None,
        }
    }
}

/// The values of those texts that read as integers.
pub open spec fn readable_int_values(ts: Seq<Seq<char>>) -> Seq<i64>
    decreases ts.len(),
{
    if ts.len() == 0 {
        Seq::empty()
    } else {
        let v = readable_int_values(ts.drop_last());
        match int_text_value(ts.last()) {
            Some(x) => v.push(x),
            None => v,
        }
    }
}

/// A roll as formula, total and dice.
pub open spec fn roll_view(r: Roll) -> (Seq<char>, Seq<char>, Seq<RollSingle>) {
    (r.formula@, r.outcome@, r.single_rolls@)
}

/// An inline roll: its text is the total, and its `title` attribute holds
/// `Rolling FORMULA = ...` with each die's value in a `basicdiceroll` element.
pub open spec fn macro_roll(text: Seq<char>, title: Option<Seq<char>>) -> Option<(Seq<char>, Seq<char>, Seq<RollSingle>)> {
    match title {
        None => None,
        Some(t) => match (int_values(element_texts(selection(t, ".basicdiceroll"@, "title"@))), first_occurrence(t, " = "@)) {
            (Some(outcomes), Some(pos)) => {
                let expr = remove_all(t.take(pos), "Rolling "@);
                match decomposition(expr, outcomes) {
                    Some(dice) => if is_float_text(text) {
                        Some((expr, text, dice))
                    } else {
                        None
                    },
                    None => None,
                }
            },
            _ => None,
        },
    }
}

/// A roll reported in full: the first `formula` element (`rolling FORMULA`),
/// the values of the `didroll` elements, and the first `rolled` element's total.
pub open spec fn plain_roll(html: Seq<char>) -> Option<(Seq<char>, Seq<char>, Seq<RollSingle>)> {
    let f = selection(html, ".formula"@, "title"@);
    let d = selection(html, ".dicegrouping .didroll"@, "title"@);
    let r = selection(html, ".rolled"@, "title"@);
    if f.len() == 0 || r.len() == 0 || !is_float_text(joined(r[0].0)) {
        None
    } else {
        let expr = remove_all(joined(f[0].0), "rolling "@);
        match decomposition(expr, readable_int_values(element_texts(d))) {
            Some(dice) => Some((expr, joined(r[0].0), dice)),
            None => None,
        }
    }
}

/// The inline rolls among `els` that read, in order.
pub open spec fn macro_rolls(els: Seq<(Seq<Seq<char>>, Option<Seq<char>>)>) -> Seq<(Seq<char>, Seq<char>, Seq<RollSingle>)>
    decreases els.len(),
{
    if els.len() == 0 {
        Seq::empty()
    } else {
        let v = macro_rolls(els.drop_last());
        match macro_roll(joined(els.last().0), els.last().1) {
            Some(x) => v.push(x),
            None => v,
        }
    }
}

/// The rolls of an entry: the plain roll, if any, then the inline rolls.
pub open spec fn fragment_rolls(html: Seq<char>) -> Seq<(Seq<char>, Seq<char>, Seq<RollSingle>)> {
    let plain = match plain_roll(html) {
        Some(x) => seq![x],
        None => Seq::empty(),
    };
    plain + macro_rolls(selection(html, ".inlinerollresult"@, "title"@))
}

fn int_values_exec(els: &Vec<SelectedElement>, lenient: bool) -> (r: Option<Vec<i64>>)
    ensures
        ({
            let ts = element_texts(elements_view(els@));
            if lenient {
                r is Some && r->0@ == readable_int_values(ts)
            } else {
                (r is Some <==> int_values(ts) is Some) && (r matches Some(v) ==> v@ == int_values(ts)->0)
            }
        }),
{
    let ghost ts = element_texts(elements_view(els@));
    let mut v: Vec<i64> = Vec::new();
    let mut i: usize = 0;
    while i < els.len()
        invariant
            i <= els.len(),
            ts == element_texts(elements_view(els@)),
            lenient ==> v@ == readable_int_values(ts.take(i as int)),
            !lenient ==> int_values(ts.take(i as int)) == Some(v@),
        decreases els.len() - i,
    {
        let t = join_texts(&els[i].texts);
        assert(ts.take(i + 1).drop_last() =~= ts.take(i as int));
        assert(ts[i as int] == t@);
        match parse_int_text(t.as_slice()) {
            Some(x) => v.push(x),
            None => {
                if !lenient {
                    proof {
                        lemma_int_values_prefix(ts, i + 1);
                    }
                    return None;
                }
            },
        }
        i = i + 1;
    }
    assert(ts.take(els.len() as int) =~= ts);
    Some(v)
}

proof fn lemma_int_values_prefix(ts: Seq<Seq<char>>, n: int)
    requires
        0 <= n <= ts.len(),
        int_values(ts.take(n)) is None,
    ensures
        int_values(ts) is None,
    decreases ts.len() - n,
{
    if n < ts.len() {
        assert(ts.take(n + 1).drop_last() =~= ts.take(n));
        lemma_int_values_prefix(ts, n + 1);
    } else {
        assert(ts.take(n) =~= ts);
    }
}

fn outcomes_of_title(title: &String) -> (r: Option<Vec<i64>>)
    ensures
        (r is Some <==> int_values(element_texts(selection(title@, ".basicdiceroll"@, "title"@))) is Some),
        r matches Some(v) ==> v@ == int_values(element_texts(selection(title@, ".basicdiceroll"@, "title"@)))->0,
{
    let els = select(title.as_str(), ".basicdiceroll", "title");
    int_values_exec(&els, false)
}

/// The roll of an inline roll element; see `macro_roll`.
pub fn try_get_roll_from_macro(roll_result_elem: &SelectedElement) -> (r: Option<Roll>)
    ensures
        match r {
            Some(roll) => macro_roll(joined(element_view(*roll_result_elem).0), element_view(*roll_result_elem).1) == Some(roll_view(roll)),
            None => macro_roll(joined(element_view(*roll_result_elem).0), element_view(*roll_result_elem).1) is None,
        },
{
    let text = join_texts(&roll_result_elem.texts);
    let title = match &roll_result_elem.attr {
        Some(t) => t,
        None => return None,
    };
    let outcomes = match outcomes_of_title(title) {
        Some(v) => v,
        None => return None,
    };
    let t = chars_of(title.as_str());
    let pos = match find_first(&t, &chars_of(" = ")) {
        Some(p) => p,
        None => return None,
    };
    let mut head: Vec<char> = Vec::new();
    let mut i: usize = 0;
    while i < pos
        invariant
            i <= pos,
            pos <= t.len(),
            head@ == t@.take(i as int),
        decreases pos - i,
    {
        head.push(t[i]);
        assert(t@.take(i + 1) =~= t@.take(i as int).push(t@[i as int]));
        i = i + 1;
    }
    let expr = remove_all_exec(&head, &chars_of("Rolling "));
    let expr_string = string_from_chars(expr.as_slice());
    let dice = match decompose(expr_string.as_str(), &outcomes) {
        Some(d) => d,
        None => return None,
    };
    if !float_text_check(text.as_slice()) {
        return None;
    }
    Some(Roll { formula: expr_string, outcome: string_from_chars(text.as_slice()), single_rolls: dice })
}

/// The plain roll of an entry; see `plain_roll`.
pub fn try_get_roll_from_plain(html: &str) -> (r: Option<Roll>)
    ensures
        match r {
            Some(roll) => plain_roll(html@) == Some(roll_view(roll)),
            None => plain_roll(html@) is None,
        },
{
    let f = select(html, ".formula", "title");
    let d = select(html, ".dicegrouping .didroll", "title");
    let rolled = select(html, ".rolled", "title");
    if f.len() == 0 || rolled.len() == 0 {
        return None;
    }
    let total = join_texts(&rolled[0].texts);
    if !float_text_check(total.as_slice()) {
        return None;
    }
    let formula = join_texts(&f[0].texts);
    let expr = remove_all_exec(&formula, &chars_of("rolling "));
    let expr_string = string_from_chars(expr.as_slice());
    let outcomes = match int_values_exec(&d, true) {
        Some(v) => v,
        None => return None,
    };
    match decompose(expr_string.as_str(), &outcomes) {
        Some(dice) => Some(Roll { formula: expr_string, outcome: string_from_chars(total.as_slice()), single_rolls: dice }),
        None => None,
    }
}

/// Every roll of an entry: its plain roll, then its inline rolls, in order.
pub fn get_rolls_from_fragment(html: &str) -> (r: Vec<Roll>)
    ensures
        r@.map_values(|x: Roll| roll_view(x)) == fragment_rolls(html@),
{
    let mut rolls: Vec<Roll> = Vec::new();
    if let Some(roll) = try_get_roll_from_plain(html) {
        rolls.push(roll);
    }
    let ghost plain = rolls@.map_values(|x: Roll| roll_view(x));
    assert(plain =~= (match plain_roll(html@) {
        Some(x) => seq![x],
        None => Seq::empty(),
    }));
    let els = select(html, ".inlinerollresult", "title");
    let mut i: usize = 0;
    while i < els.len()
        invariant
            i <= els.len(),
            elements_view(els@) == selection(html@, ".inlinerollresult"@, "title"@),
            rolls@.map_values(|x: Roll| roll_view(x)) == plain + macro_rolls(elements_view(els@).take(i as int)),
        decreases els.len() - i,
    {
        let ghost before = rolls@;
        assert(elements_view(els@).take(i + 1).drop_last() =~= elements_view(els@).take(i as int));
        assert(elements_view(els@)[i as int] == element_view(els@[i as int]));
        if let Some(roll) = try_get_roll_from_macro(&els[i]) {
            rolls.push(roll);
            assert(rolls@.map_values(|x: Roll| roll_view(x)) =~= before.map_values(|x: Roll| roll_view(x)).push(roll_view(roll)));
        }
        i = i + 1;
    }
    assert(elements_view(els@).take(els.len() as int) =~= elements_view(els@));
    rolls
}

pub open spec fn is_private(html: Seq<char>) -> bool {
    selection(html, ".message.private"@, "title"@).len() > 0
}

/// Whether the entry is a whisper.
pub fn fragment_is_private(html: &str) -> (r: bool)
    ensures
        r == is_private(html@),
{
    select(html, ".message.private", "title").len() > 0
}

/// The grapheme clusters of `s`, in order.
pub uninterp spec fn grapheme_clusters(s: Seq<char>) -> Seq<Seq<char>>;

/// Relies on unicode-segmentation's `UnicodeSegmentation::graphemes`, extended
/// clusters.
#[verifier::external_body]
fn graphemes_of(s: &str) -> (r: Vec<String>)
    ensures
        texts_view(r@) == grapheme_clusters(s@),
{
    unicode_segmentation::UnicodeSegmentation::graphemes(s, true).map(|g| g.to_string()).collect()
}

/// What a grapheme did to the entry being cut out.
#[derive(Clone, Copy, Debug, PartialEq, Eq, Structural)]
pub enum ScanEvent {
    Nothing,
    EntryClosed,
    TranscriptEnd,
}

/// The tag scanner: the tag being read (empty outside a tag), the depth of
/// open `div`s (-1 before the transcript's first line), and whether the `<`
/// that a `title=` line may open with has been passed over.
pub struct TagScanner {
    pub current_tag: Vec<char>,
    pub div_depth: i64,
    pub title_bracket_skipped: bool,
}

pub open spec fn deeper(d: i64) -> i64 {
    if d == i64::MAX { d } else { (d + 1) as i64 }
}

pub open spec fn shallower(d: i64) -> i64 {
    if d == i64::MIN { d } else { (d - 1) as i64 }
}

/// One grapheme. Outside a tag, `<` opens one. Inside, a `>` closes it unless
/// more than one `<` is still open; a closed `<div` tag deepens and a closed
/// `</div` tag shallows. Depth 0 after a closed tag ends an entry, depth -1
/// the transcript. On a line that opens with `title=`, the first `<` inside a
/// tag is passed over.
pub open spec fn tag_step(tag: Seq<char>, depth: i64, skipped: bool, title_line: bool, g: Seq<char>) -> (Seq<char>, i64, bool, ScanEvent) {
    if tag.len() == 0 {
        if g == "<"@ { (g, depth, skipped, ScanEvent::Nothing) } else { (tag, depth, skipped, ScanEvent::Nothing) }
    } else if g == "<"@ {
        if title_line && !skipped {
            (tag, depth, true, ScanEvent::Nothing)
        } else {
            (tag + g, depth, skipped, ScanEvent::Nothing)
        }
    } else if g == ">"@ {
        if count_char(tag, '<') - count_char(tag, '>') > 1 {
            (tag + g, depth, skipped, ScanEvent::Nothing)
        } else {
            let d = if is_prefix("<div"@, tag) {
                deeper(depth)
            } else if is_prefix("</div"@, tag) {
                shallower(depth)
            } else {
                depth
            };
            let e = if d == -1 {
                ScanEvent::TranscriptEnd
            } else if d == 0 {
                ScanEvent::EntryClosed
            } else {
                ScanEvent::Nothing
            };
            (Seq::empty(), d, skipped, e)
        }
    } else {
        (tag + g, depth, skipped, ScanEvent::Nothing)
    }
}

fn count_in(v: &Vec<char>, c: char) -> (r: usize)
    ensures
        r == count_char(v@, c),
{
    let mut n: usize = 0;
    let mut i: usize = 0;
    while i < v.len()
        invariant
            i <= v.len(),
            n == count_char(v@.take(i as int), c),
            n <= i,
        decreases v.len() - i,
    {
        assert(v@.take(i + 1).drop_last() =~= v@.take(i as int));
        if v[i] == c {
            n = n + 1;
        }
        i = i + 1;
    }
    assert(v@.take(v.len() as int) =~= v@);
    n
}

impl TagScanner {
    /// A scanner before the transcript's first line.
    pub fn new() -> (r: TagScanner)
        ensures
            r.current_tag@.len() == 0,
            r.div_depth == -1,
            !r.title_bracket_skipped,
    {
        TagScanner { current_tag: Vec::new(), div_depth: -1, title_bracket_skipped: false }
    }

    /// Reads one grapheme; see `tag_step`.
    pub fn scan_grapheme(&mut self, g: &Vec<char>, is_title_line: bool) -> (r: ScanEvent)
        ensures
            (final(self).current_tag@, final(self).div_depth, final(self).title_bracket_skipped, r)
                == tag_step(old(self).current_tag@, old(self).div_depth, old(self).title_bracket_skipped, is_title_line, g@),
    {
        let open = chars_of("<");
        let close = chars_of(">");
        if self.current_tag.len() == 0 {
            if same_chars(g, &open) {
                push_all(&mut self.current_tag, g.as_slice());
                assert(self.current_tag@ =~= g@);
            }
            return ScanEvent::Nothing;
        }
        if same_chars(g, &open) {
            if is_title_line && !self.title_bracket_skipped {
                self.title_bracket_skipped = true;
            } else {
                push_all(&mut self.current_tag, g.as_slice());
            }
            return ScanEvent::Nothing;
        }
        if same_chars(g, &close) {
            let opening = count_in(&self.current_tag, '<');
            let closing = count_in(&self.current_tag, '>');
            if opening > closing && opening - closing > 1 {
                push_all(&mut self.current_tag, g.as_slice());
                return ScanEvent::Nothing;
            }
            if starts_with(&self.current_tag, &chars_of("<div")) {
                if self.div_depth < i64::MAX {
                    self.div_depth = self.div_depth + 1;
                }
            } else if starts_with(&self.current_tag, &chars_of("</div")) {
                if self.div_depth > i64::MIN {
                    self.div_depth = self.div_depth - 1;
                }
            }
            self.current_tag = Vec::new();
            assert(self.current_tag@ =~= Seq::<char>::empty());
            if self.div_depth == -1 {
                return ScanEvent::TranscriptEnd;
            }
            if self.div_depth == 0 {
                return ScanEvent::EntryClosed;
            }
            return ScanEvent::Nothing;
        }
        push_all(&mut self.current_tag, g.as_slice());
        ScanEvent::Nothing
    }
}

/// The sender after an entry: the first `by` element's text less its final
/// colon, or the previous sender where the entry names none.
pub open spec fn sender_after(html: Seq<char>, last: Option<Seq<char>>) -> Option<Seq<char>> {
    let by = selection(html, ".by"@, "title"@);
    if by.len() > 0 && is_suffix(":"@, joined(by[0].0)) {
        Some(joined(by[0].0).drop_last())
    } else {
        last
    }
}

/// An entry without a `by` element keeps the sender of the entry before it.
pub proof fn lemma_sender_carries_forward(html: Seq<char>, last: Option<Seq<char>>)
    requires
        selection(html, ".by"@, "title"@).len() == 0,
    ensures
        sender_after(html, last) == last,
{
}

pub open spec fn full_format() -> Seq<char> {
    "%B %d, %Y %I:%M%p %z"@
}

/// The clock after an entry, as the transcript reads it, before the offset is
/// applied. A full date and time sets it; a bare time is read on the date of
/// the previous reading.
pub open spec fn local_time_after(html: Seq<char>, last: Option<i64>) -> Option<i64> {
    let ts = selection(html, ".tstamp"@, "title"@);
    let text = joined(ts[0].0) + " +0000"@;
    let read = match parsed_instant(text, full_format()) {
        Some(m) => Some(m),
        None => if is_time_of_day(text, "%I:%M%p %z"@) && last is Some {
            match formatted_date(last->0) {
                Some(date) => parsed_instant(date + " "@ + text, full_format()),
                None => None,
            }
        } else {
            None
        },
    };
    if ts.len() == 0 {
        last
    } else {
        match read {
            Some(m) => Some(m),
            None => last,
        }
    }
}

/// The text of a general message, squeezed, where the entry is one and has
/// no roll.
pub open spec fn entry_content(html: Seq<char>) -> Seq<char> {
    let general = selection(html, ".message.general"@, "title"@);
    if general.len() > 0 && fragment_rolls(html).len() == 0 {
        squeeze_white(trim(last_or_empty(general[0].0)))
    } else {
        Seq::empty()
    }
}

/// The id of an entry: the `data-messageid` of its first `message` element.
pub open spec fn entry_id(html: Seq<char>) -> Option<Seq<char>> {
    let m = selection(html, ".message"@, "data-messageid"@);
    if m.len() == 0 { None } else { m[0].1 }
}

/// Whether the entry `html`, read after sender `sender0` and clock `time0`,
/// gives a post: it is no whisper, it has an id, and a sender and a time are
/// known once it is read.
pub open spec fn entry_yields(html: Seq<char>, sender0: Option<Seq<char>>, time0: Option<i64>, offset: i32) -> bool {
    let sender = sender_after(html, sender0);
    let time = local_time_after(html, time0);
    &&& !is_private(html)
    &&& entry_id(html) is Some
    &&& sender is Some
    &&& time is Some
    &&& shifted(time->0, offset) is Some
}

/// `p` is the post of the entry `html`, read after sender `sender0` and clock
/// `time0`.
pub open spec fn entry_post_matches(p: Post, html: Seq<char>, sender0: Option<Seq<char>>, time0: Option<i64>, offset: i32) -> bool {
    let sender = sender_after(html, sender0);
    let time = local_time_after(html, time0);
    &&& Some(p.id@) == entry_id(html)
    &&& Some(p.sender_name@) == sender
    &&& Some(p.timestamp) == shifted(time->0, offset)
    &&& p.rolls@.map_values(|x: Roll| roll_view(x)) == fragment_rolls(html)
    &&& p.content_raw@ == entry_content(html)
    &&& p.is_message == (entry_content(html).len() > 0 && Some(entry_content(html)) != sender)
}

/// A post from an entry without a `by` element carries the sender held
/// before the entry, that is, the sender of the entry before it.
pub proof fn lemma_post_keeps_previous_sender(p: Post, html: Seq<char>, sender0: Option<Seq<char>>, time0: Option<i64>, offset: i32)
    requires
        entry_post_matches(p, html, sender0, time0, offset),
        selection(html, ".by"@, "title"@).len() == 0,
    ensures
        sender0 == Some(p.sender_name@),
{
}

/// A whisper never gives a post.
pub proof fn lemma_whisper_gives_no_post(html: Seq<char>, sender0: Option<Seq<char>>, time0: Option<i64>, offset: i32)
    requires
        is_private(html),
    ensures
        !entry_yields(html, sender0, time0, offset),
{
}

/// What the reader holds between graphemes.
pub ghost struct ReaderState {
    pub tag: Seq<char>,
    pub depth: i64,
    pub skipped: bool,
    pub html: Seq<char>,
    pub sender: Option<Seq<char>>,
    pub time: Option<i64>,
}

/// Where reading stopped: at the end of a line, at an entry that gives a post
/// (with the entry and the sender and clock before it), or at the end of the
/// transcript.
pub ghost enum Stop {
    LineDone,
    Entry(Seq<char>, Option<Seq<char>>, Option<i64>),
    End,
}

/// The graphemes `gs` of one line from the `i`-th on: each is scanned; a
/// closed entry updates sender and clock and is cleared, and stops the line
/// if it gives a post.
pub open spec fn scan_line(st: ReaderState, gs: Seq<Seq<char>>, i: int, title: bool, offset: i32) -> (ReaderState, Stop)
    decreases gs.len() - i,
{
    if i < 0 || i >= gs.len() {
        (st, Stop::LineDone)
    } else {
        let (tag, depth, skipped, ev) = tag_step(st.tag, st.depth, st.skipped, title, gs[i]);
        let st1 = ReaderState { tag, depth, skipped, ..st };
        match ev {
            ScanEvent::TranscriptEnd => (st1, Stop::End),
            ScanEvent::EntryClosed => {
                let st2 = ReaderState {
                    html: Seq::empty(),
                    sender: sender_after(st.html, st.sender),
                    time: local_time_after(st.html, st.time),
                    ..st1
                };
                if entry_yields(st.html, st.sender, st.time, offset) {
                    (st2, Stop::Entry(st.html, st.sender, st.time))
                } else {
                    scan_line(st2, gs, i + 1, title, offset)
                }
            },
            ScanEvent::Nothing => scan_line(st1, gs, i + 1, title, offset),
        }
    }
}

/// A line that opens with `title=`, white space aside.
pub open spec fn is_title_line(line: Seq<char>) -> bool {
    is_prefix("title="@, trim(line))
}

/// The lines from the `k`-th on: the first line of the transcript is passed
/// over; each other line is added to the entry and scanned. Gives the state,
/// the next line to read and where reading stopped. What follows a post on
/// its line is not scanned.
pub open spec fn scan_lines(st: ReaderState, lines: Seq<Seq<char>>, k: int, offset: i32) -> (ReaderState, int, Stop)
    decreases lines.len() - k,
{
    if k < 0 || k >= lines.len() {
        (st, k, Stop::LineDone)
    } else if st.depth == -1 {
        scan_lines(ReaderState { depth: 0, ..st }, lines, k + 1, offset)
    } else {
        let st1 = ReaderState { html: st.html + lines[k], skipped: false, ..st };
        match scan_line(st1, grapheme_clusters(lines[k]), 0, is_title_line(lines[k]), offset) {
            (st2, Stop::LineDone) => scan_lines(st2, lines, k + 1, offset),
            (st2, stop) => (st2, k + 1, stop),
        }
    }
}

/// A transcript read forward once, line by line. `last_parsed_datetime` is
/// the last time read from the transcript, before the offset is applied.
pub struct Roll20ChatLog {
    pub timezone_offset: i32,
    pub scanner: TagScanner,
    pub current_message_html: Vec<char>,
    pub last_parsed_sender_name: Option<String>,
    pub last_parsed_datetime: Option<i64>,
    pub lines: Vec<String>,
    pub next_line: usize,
    pub finished: bool,
}

pub open spec fn state_of(r: Roll20ChatLog) -> ReaderState {
    ReaderState {
        tag: r.scanner.current_tag@,
        depth: r.scanner.div_depth,
        skipped: r.scanner.title_bracket_skipped,
        html: r.current_message_html@,
        sender: opt_view(r.last_parsed_sender_name),
        time: r.last_parsed_datetime,
    }
}

/// What one call of `next_post` does: once the transcript has ended, nothing;
/// otherwise it reads as `scan_lines` says, from the next line and outside any
/// tag, and gives the post of the entry where reading stopped, if any.
pub open spec fn roll20_next(before: Roll20ChatLog, after: Roll20ChatLog, r: Option<Post>) -> bool {
    let offset = before.timezone_offset;
    let start = ReaderState { tag: Seq::empty(), ..state_of(before) };
    let (st, k, stop) = scan_lines(start, texts_view(before.lines@), before.next_line as int, offset);
    &&& after.lines == before.lines
    &&& after.timezone_offset == offset
    &&& after.next_line <= after.lines.len()
    &&& if before.finished {
        r is None && after.finished && after.next_line == before.next_line
    } else {
        &&& state_of(after) == st
        &&& after.next_line == k
        &&& after.finished == (stop is End)
        &&& match stop {
            Stop::Entry(h, s0, t0) => r matches Some(p) && entry_post_matches(p, h, s0, t0, offset),
            _ => r is None,
        }
    }
}

impl Roll20ChatLog {
    /// A reader of `lines`, with the clock `timezone_offset` hours east of UTC
    /// (UTC where none is given).
    pub fn new(lines: Vec<String>, timezone_offset: Option<i32>) -> (r: Roll20ChatLog)
        ensures
            r.lines@ == lines@,
            r.next_line == 0,
            r.timezone_offset == (match timezone_offset { Some(h) => h, None => 0 }),
            r.scanner.div_depth == -1,
            !r.scanner.title_bracket_skipped,
            r.scanner.current_tag@.len() == 0,
            r.current_message_html@.len() == 0,
            r.last_parsed_sender_name is None,
            r.last_parsed_datetime is None,
            !r.finished,
    {
        let offset = match timezone_offset {
            Some(h) => h,
            None => 0,
        };
        Roll20ChatLog {
            timezone_offset: offset,
            scanner: TagScanner::new(),
            current_message_html: Vec::new(),
            last_parsed_sender_name: None,
            last_parsed_datetime: None,
            lines,
            next_line: 0,
            finished: false,
        }
    }

    /// Takes the sender of the entry `html`; see `sender_after`.
    pub fn try_update_last_parsed_sender_name(&mut self, html: &str)
        ensures
            opt_view(final(self).last_parsed_sender_name) == sender_after(html@, opt_view(old(self).last_parsed_sender_name)),
            final(self).last_parsed_datetime == old(self).last_parsed_datetime,
            final(self).timezone_offset == old(self).timezone_offset,
            final(self).current_message_html == old(self).current_message_html,
            final(self).lines == old(self).lines,
            final(self).next_line == old(self).next_line,
            final(self).scanner == old(self).scanner,
            final(self).finished == old(self).finished,
    {
        let by = select(html, ".by", "title");
        if by.len() > 0 {
            assert(elements_view(by@)[0] == element_view(by@[0]));
            let raw = join_texts(&by[0].texts);
            if ends_with(&raw, &chars_of(":")) {
                proof {
                    reveal_strlit(":");
                }
                let mut name = raw;
                name.pop();
                self.last_parsed_sender_name = Some(string_from_chars(name.as_slice()));
            }
        }
    }

    /// Takes the time of the entry `html`; see `local_time_after`.
    pub fn try_update_last_parsed_datetime(&mut self, html: &str)
        ensures
            final(self).last_parsed_datetime == local_time_after(html@, old(self).last_parsed_datetime),
            final(self).last_parsed_sender_name == old(self).last_parsed_sender_name,
            final(self).timezone_offset == old(self).timezone_offset,
            final(self).current_message_html == old(self).current_message_html,
            final(self).lines == old(self).lines,
            final(self).next_line == old(self).next_line,
            final(self).scanner == old(self).scanner,
            final(self).finished == old(self).finished,
    {
        let ts = select(html, ".tstamp", "title");
        if ts.len() == 0 {
            return;
        }
        assert(elements_view(ts@)[0] == element_view(ts@[0]));
        let mut text = join_texts(&ts[0].texts);
        push_all(&mut text, chars_of(" +0000").as_slice());
        let text = string_from_chars(text.as_slice());
        let read = match parse_instant(text.as_str(), "%B %d, %Y %I:%M%p %z") {
            Some(m) => Some(m),
            None => {
                if reads_as_time_of_day(text.as_str(), "%I:%M%p %z") && self.last_parsed_datetime.is_some() {
                    match format_date(self.last_parsed_datetime.unwrap(), "%B %d, %Y") {
                        Some(date) => {
                            let mut full = chars_of(date.as_str());
                            push_all(&mut full, chars_of(" ").as_slice());
                            push_all(&mut full, chars_of(text.as_str()).as_slice());
                            parse_instant(string_from_chars(full.as_slice()).as_str(), "%B %d, %Y %I:%M%p %z")
                        },
                        None => None,
                    }
                } else {
                    None
                }
            },
        };
        if let Some(m) = read {
            self.last_parsed_datetime = Some(m);
        }
    }

    /// The post of the entry gathered so far. The sender and the clock are
    /// taken from it first; see `entry_yields` and `entry_post_matches`.
    pub fn post_from_current_message_html(&mut self) -> (r: Option<Post>)
        ensures
            ({
                let h = old(self).current_message_html@;
                let s0 = opt_view(old(self).last_parsed_sender_name);
                let t0 = old(self).last_parsed_datetime;
                &&& opt_view(final(self).last_parsed_sender_name) == sender_after(h, s0)
                &&& final(self).last_parsed_datetime == local_time_after(h, t0)
                &&& (r is Some <==> entry_yields(h, s0, t0, old(self).timezone_offset))
                &&& (r matches Some(p) ==> entry_post_matches(p, h, s0, t0, old(self).timezone_offset))
            }),
            final(self).current_message_html == old(self).current_message_html,
            final(self).timezone_offset == old(self).timezone_offset,
            final(self).lines == old(self).lines,
            final(self).next_line == old(self).next_line,
            final(self).scanner == old(self).scanner,
            final(self).finished == old(self).finished,
    {
        let html = string_from_chars(self.current_message_html.as_slice());
        self.try_update_last_parsed_sender_name(html.as_str());
        self.try_update_last_parsed_datetime(html.as_str());
        if fragment_is_private(html.as_str()) {
            return None;
        }
        let messages = select(html.as_str(), ".message", "data-messageid");
        if messages.len() == 0 {
            return None;
        }
        assert(elements_view(messages@)[0] == element_view(messages@[0]));
        let id = match &messages[0].attr {
            Some(id) => id.clone(),
            None => return None,
        };
        let sender_name = match &self.last_parsed_sender_name {
            Some(s) => s.clone(),
            None => return None,
        };
        let timestamp = match self.last_parsed_datetime {
            Some(t) => match shift_by_offset(t, self.timezone_offset) {
                Some(v) => v,
                None => return None,
            },
            None => return None,
        };
        let rolls = get_rolls_from_fragment(html.as_str());
        let general = select(html.as_str(), ".message.general", "title");
        let mut content: Vec<char> = Vec::new();
        if general.len() > 0 && rolls.len() == 0 {
            assert(elements_view(general@)[0] == element_view(general@[0]));
            let last = if general[0].texts.len() == 0 {
                Vec::new()
            } else {
                let k = general[0].texts.len() - 1;
                assert(texts_view(general@[0].texts@)[k as int] == general@[0].texts@[k as int]@);
                chars_of(general[0].texts[k].as_str())
            };
            assert(last@ == last_or_empty(selection(html@, ".message.general"@, "title"@)[0].0));
            content = squeeze_white_exec(&trim_chars(last.as_slice()));
        } else {
            assert(content@ =~= Seq::<char>::empty());
        }
        let is_message = content.len() > 0 && !same_chars(&content, &chars_of(sender_name.as_str()));
        Some(Post {
            id,
            sender_name,
            timestamp,
            content_raw: string_from_chars(content.as_slice()),
            is_message,
            rolls,
        })
    }

    /// The next post of the transcript; see `roll20_next`. Once the
    /// transcript's outermost `div` has closed, every later call gives `None`.
    pub fn next_post(&mut self) -> (r: Option<Post>)
        requires
            old(self).next_line <= old(self).lines.len(),
        ensures
            roll20_next(*old(self), *final(self), r),
    {
        if self.finished {
            return None;
        }
        self.scanner.current_tag = Vec::new();
        assert(self.scanner.current_tag@ =~= Seq::<char>::empty());
        let ghost offset = self.timezone_offset;
        let ghost lines = texts_view(self.lines@);
        let ghost goal = scan_lines(state_of(*self), lines, self.next_line as int, offset);
        assert(state_of(*self) == ReaderState { tag: Seq::empty(), ..state_of(*old(self)) });
        let open = chars_of("title=");
        while self.next_line < self.lines.len()
            invariant
                self.lines == old(self).lines,
                lines == texts_view(self.lines@),
                offset == self.timezone_offset,
                self.timezone_offset == old(self).timezone_offset,
                !self.finished,
                !old(self).finished,
                open@ == "title="@,
                goal == scan_lines(ReaderState { tag: Seq::empty(), ..state_of(*old(self)) }, lines, old(self).next_line as int, offset),
                old(self).next_line <= self.next_line <= self.lines.len(),
                scan_lines(state_of(*self), lines, self.next_line as int, offset) == goal,
            decreases self.lines.len() - self.next_line,
        {
            let k = self.next_line;
            let ghost st0 = state_of(*self);
            self.next_line = self.next_line + 1;
            assert(lines[k as int] == self.lines@[k as int]@);
            if self.scanner.div_depth == -1 {
                self.scanner.div_depth = 0;
                assert(state_of(*self) == ReaderState { depth: 0, ..st0 });
                continue;
            }
            let line = chars_of(self.lines[k].as_str());
            push_all(&mut self.current_message_html, line.as_slice());
            let title = starts_with(&trim_chars(line.as_slice()), &open);
            self.scanner.title_bracket_skipped = false;
            assert(title == is_title_line(lines[k as int]));
            assert(state_of(*self) == ReaderState { html: st0.html + lines[k as int], skipped: false, ..st0 });
            let graphemes = graphemes_of(self.lines[k].as_str());
            let ghost gs = grapheme_clusters(lines[k as int]);
            let mut i: usize = 0;
            while i < graphemes.len()
                invariant
                    self.lines == old(self).lines,
                    lines == texts_view(self.lines@),
                    offset == self.timezone_offset,
                    self.timezone_offset == old(self).timezone_offset,
                    !self.finished,
                    !old(self).finished,
                    goal == scan_lines(ReaderState { tag: Seq::empty(), ..state_of(*old(self)) }, lines, old(self).next_line as int, offset),
                    self.next_line == k + 1,
                    k < self.lines.len(),
                    old(self).next_line <= k,
                    texts_view(graphemes@) == gs,
                    i <= graphemes.len(),
                    (match scan_line(state_of(*self), gs, i as int, title, offset) {
                        (st2, Stop::LineDone) => scan_lines(st2, lines, k + 1, offset),
                        (st2, stop) => (st2, k + 1, stop),
                    }) == goal,
                decreases graphemes.len() - i,
            {
                let g = chars_of(graphemes[i].as_str());
                assert(g@ == gs[i as int]);
                match self.scanner.scan_grapheme(&g, title) {
                    ScanEvent::TranscriptEnd => {
                        self.finished = true;
                        return None;
                    },
                    ScanEvent::EntryClosed => {
                        let post = self.post_from_current_message_html();
                        self.current_message_html = Vec::new();
                        assert(self.current_message_html@ =~= Seq::<char>::empty());
                        if post.is_some() {
                            return post;
                        }
                    },
                    ScanEvent::Nothing => {},
                }
                i = i + 1;
            }
        }
        None
    }
}

} // verus!
