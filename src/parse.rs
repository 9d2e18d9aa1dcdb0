//! Decoding of the three log sources into entries newer than a watermark.
use vstd::prelude::*;

use crate::codec::{
    finish_unescape_double_quote, finish_unescaped, pre_unescape_double_quote, pre_unescaped,
    quote, unescape_double_quote, unescaped,
};
use crate::error::NgsLogActionError;
use crate::ngs_log::{
    ts_le, ChatLog, ChatLogView, ItemCategory, ItemLog, ItemLogView, NgsLog, NgsLogChannel,
    NgsLogView, Timestamp,
};
use crate::text::{
    char_seqs, chars_of, equals_str, find_char, has_prefix, index_of,
    parse_uint, parsed_uint, split_fields, split_tab, starts_with, string_of, string_of_range,
};

verus! {

/// What the chrono crate reads from an RFC 3339 date and time.
pub uninterp spec fn rfc3339_timestamp(text: Seq<char>) -> Option<Timestamp>;

/// Relies on chrono's `DateTime::parse_from_rfc3339`; the instant and the
/// offset of what it parses are copied out.
#[verifier::external_body]
fn parse_rfc3339(text: &str) -> (r: Option<Timestamp>)
    ensures
        r == rfc3339_timestamp(text@),
{
    match chrono::DateTime::parse_from_rfc3339(text) {
        Ok(d) => Some(
            Timestamp {
                secs: d.timestamp(),
                nanos: d.timestamp_subsec_nanos(),
                offset: chrono::Offset::fix(d.offset()).local_minus_utc(),
            },
        ),
        Err(_) => None,
    }
}

/// One of the three log files.
#[derive(Clone, Copy, Debug, PartialEq, Eq, Structural)]
pub enum LogSource {
    Chat,
    Action,
    Reward,
}

/// What one line does to the entries decoded so far.
pub enum LineEffect {
    /// Nothing: an old entry, a dropped one, or a shape that is ignored.
    Skipped,
    /// A line without a leading timestamp, to be added to the last chat body.
    Continuation,
    /// A new entry.
    Entry(NgsLogView),
    /// An unrecognised value: the whole decoding fails.
    Fatal,
}

pub open spec fn u16_max() -> nat {
    0xffff
}

pub open spec fn u32_max() -> nat {
    0xffff_ffff
}

/// The timestamp that leads a line cut into fields: its first field with
/// the local offset appended, when a tab follows it and it parses.
pub open spec fn line_timestamp(f: Seq<Seq<char>>, offset: Seq<char>) -> Option<Timestamp> {
    if f.len() < 2 {
        None
    } else {
        rfc3339_timestamp(f[0] + offset)
    }
}

pub open spec fn channel_of(s: Seq<char>) -> Option<NgsLogChannel> {
    if s == "PUBLIC"@ {
        Some(NgsLogChannel::Public)
    } else if s == "PARTY"@ {
        Some(NgsLogChannel::Party)
    } else if s == "GUILD"@ {
        Some(NgsLogChannel::Guild)
    } else if s == "REPLY"@ {
        Some(NgsLogChannel::Reply)
    } else if s == "GROUP"@ {
        Some(NgsLogChannel::Group)
    } else {
        None
    }
}

/// The body of a chat line: unescaped; a lone quote opens an empty
/// multi-line body; a leading quote not followed by another opens a
/// multi-line body and is dropped.
pub open spec fn chat_body(raw: Seq<char>) -> Seq<char> {
    let b = unescaped(raw);
    if b == seq![quote()] {
        seq!['\n']
    } else if b.len() >= 2 && b[0] == quote() && b[1] != quote() {
        b.skip(1)
    } else {
        b
    }
}

/// The text that a continuation line adds to the open chat body: a lone
/// quote at its end closes the body and is dropped.
pub open spec fn continuation_text(line: Seq<char>) -> Seq<char> {
    let p = pre_unescaped(line);
    if p.len() > 0 && p.last() == quote() {
        finish_unescaped(p.drop_last())
    } else {
        finish_unescaped(p)
    }
}

pub open spec fn chat_line(f: Seq<Seq<char>>, t: Timestamp) -> LineEffect {
    if f.len() < 6 {
        LineEffect::Skipped
    } else {
        match parsed_uint(f[1], u16_max()) {
            None => LineEffect::Skipped,
            Some(id) => match channel_of(f[2]) {
                None => LineEffect::Fatal,
                Some(ch) => match parsed_uint(f[3], u32_max()) {
                    None => LineEffect::Skipped,
                    Some(pid) => LineEffect::Entry(
                        NgsLogView::Chat(
                            ChatLogView {
                                datetime: t,
                                log_id: id as u16,
                                channel: ch,
                                player_id: pid as u32,
                                name: f[4],
                                body: chat_body(f[5]),
                            },
                        ),
                    ),
                },
            },
        }
    }
}

/// How the item part of a line decodes.
pub enum ItemTail {
    Dropped,
    Unrecognized,
    Item(Seq<char>, nat),
}

/// The number between the first `(` and the last character of `b`.
pub open spec fn paren_tail_number(b: Seq<char>) -> Option<nat> {
    match index_of(b, '(') {
        None => None,
        Some(p) => if p + 1 <= b.len() - 1 {
            parsed_uint(b.subrange(p + 1, b.len() - 1), u32_max())
        } else {
            None
        },
    }
}

/// The item and count of a pickup line, from its fields after the name.
pub open spec fn pickup_tail(f: Seq<Seq<char>>) -> ItemTail
    recommends
        f.len() >= 6,
{
    if f[5].len() == 0 {
        if f.len() < 7 {
            ItemTail::Dropped
        } else if starts_with(f[6], "Meseta"@) {
            let b = f[6];
            if b.len() >= 8 {
                match parsed_uint(b.subrange(7, b.len() - 1), u32_max()) {
                    Some(n) => ItemTail::Item("Meseta"@, n),
                    None => ItemTail::Dropped,
                }
            } else {
                ItemTail::Dropped
            }
        } else {
            ItemTail::Unrecognized
        }
    } else if f.len() < 7 || starts_with(f[6], "CurrentNum"@) {
        ItemTail::Item(f[5], 1)
    } else {
        match paren_tail_number(f[6]) {
            Some(n) => ItemTail::Item(f[5], if n < 1 { 1 } else { n }),
            None => ItemTail::Dropped,
        }
    }
}

pub open spec fn pickup_line(f: Seq<Seq<char>>, t: Timestamp) -> LineEffect {
    if f.len() < 3 {
        LineEffect::Skipped
    } else {
        match parsed_uint(f[1], u16_max()) {
            None => LineEffect::Skipped,
            Some(id) => if f[2] != "[Pickup]"@ || f.len() < 6 {
                LineEffect::Skipped
            } else {
                match parsed_uint(f[3], u32_max()) {
                    None => LineEffect::Skipped,
                    Some(pid) => match pickup_tail(f) {
                        ItemTail::Dropped => LineEffect::Skipped,
                        ItemTail::Unrecognized => LineEffect::Fatal,
                        ItemTail::Item(item, n) => LineEffect::Entry(
                            NgsLogView::Item(
                                ItemLogView {
                                    datetime: t,
                                    log_id: id as u16,
                                    category: ItemCategory::Pickup,
                                    player_id: pid as u32,
                                    name: f[4],
                                    item,
                                    count: n as u32,
                                },
                            ),
                        ),
                    },
                }
            },
        }
    }
}

/// The number between the first `(` and the first `)` of `b`.
pub open spec fn bracket_number(b: Seq<char>) -> Option<nat> {
    match index_of(b, '(') {
        None => None,
        Some(p) => match index_of(b, ')') {
            None => None,
            Some(q) => if p + 1 <= q {
                parsed_uint(b.subrange(p + 1, q), u32_max())
            } else {
                None
            },
        },
    }
}

pub open spec fn reward_entry(f: Seq<Seq<char>>, t: Timestamp, id: nat, item: Seq<char>, count: Seq<char>) -> LineEffect {
    match bracket_number(count) {
        None => LineEffect::Skipped,
        Some(n) => LineEffect::Entry(
            NgsLogView::Item(
                ItemLogView {
                    datetime: t,
                    log_id: id as u16,
                    category: ItemCategory::Reward,
                    player_id: 0,
                    name: f[3],
                    item,
                    count: n as u32,
                },
            ),
        ),
    }
}

pub open spec fn reward_line(f: Seq<Seq<char>>, t: Timestamp) -> LineEffect {
    if f.len() < 5 {
        LineEffect::Skipped
    } else {
        match parsed_uint(f[1], u16_max()) {
            None => LineEffect::Skipped,
            Some(id) => if f[4] == "Meseta"@ && f.len() >= 6 {
                reward_entry(f, t, id, "Meseta"@, f[5])
            } else if f[4] == "Backpack"@ && f.len() >= 7 {
                reward_entry(f, t, id, f[5], f[6])
            } else {
                LineEffect::Skipped
            },
        }
    }
}

/// What one line of `source` does, given the local offset text and the
/// watermark: a line whose timestamp is not after the watermark is skipped.
pub open spec fn line_effect(source: LogSource, line: Seq<char>, offset: Seq<char>, w: Timestamp) -> LineEffect {
    let f = split_tab(line);
    match line_timestamp(f, offset) {
        None => if source == LogSource::Chat {
            LineEffect::Continuation
        } else {
            LineEffect::Skipped
        },
        Some(t) => if ts_le(t, w) {
            LineEffect::Skipped
        } else {
            match source {
                LogSource::Chat => chat_line(f, t),
                LogSource::Action => pickup_line(f, t),
                LogSource::Reward => reward_line(f, t),
            }
        },
    }
}

pub open spec fn apply_effect(acc: Seq<NgsLogView>, e: LineEffect, line: Seq<char>) -> Option<Seq<NgsLogView>> {
    match e {
        LineEffect::Skipped => Some(acc),
        LineEffect::Fatal => None,
        LineEffect::Entry(x) => Some(acc.push(x)),
        LineEffect::Continuation => if acc.len() == 0 {
            Some(acc)
        } else {
            Some(acc.update(acc.len() - 1, acc.last().appended(continuation_text(line))))
        },
    }
}

/// The entries that the lines of `source` give, in order, or `None` when
/// a line holds an unrecognised value.
pub open spec fn decoded_logs(source: LogSource, lines: Seq<Seq<char>>, offset: Seq<char>, w: Timestamp) -> Option<Seq<NgsLogView>>
    decreases lines.len(),
{
    if lines.len() == 0 {
        Some(Seq::empty())
    } else {
        match decoded_logs(source, lines.drop_last(), offset, w) {
            None => None,
            Some(acc) => apply_effect(acc, line_effect(source, lines.last(), offset, w), lines.last()),
        }
    }
}

pub open spec fn log_views(v: Seq<NgsLog>) -> Seq<NgsLogView> {
    v.map_values(|l: NgsLog| l@)
}

pub open spec fn string_views(v: Seq<String>) -> Seq<Seq<char>> {
    v.map_values(|s: String| s@)
}

} // verus!

verus! {

/// What one line does, as decoded.
pub enum Decoded {
    Skipped,
    Continuation,
    Entry(NgsLog),
    Fatal,
}

impl View for Decoded {
    type V = LineEffect;

    open spec fn view(&self) -> LineEffect {
        match self {
            Decoded::Skipped => LineEffect::Skipped,
            Decoded::Continuation => LineEffect::Continuation,
            Decoded::Entry(l) => LineEffect::Entry(l@),
            Decoded::Fatal => LineEffect::Fatal,
        }
    }
}

proof fn whole_fields(f: Seq<Vec<char>>)
    ensures
        forall|i: int| 0 <= i < f.len() ==> (#[trigger] f[i])@.subrange(0, f[i]@.len() as int) == f[i]@
            && char_seqs(f)[i] == f[i]@,
        char_seqs(f).len() == f.len(),
{
    assert forall|i: int| 0 <= i < f.len() implies (#[trigger] f[i])@.subrange(0, f[i]@.len() as int) == f[i]@ by {
        assert(f[i]@.subrange(0, f[i]@.len() as int) =~= f[i]@);
    }
}

fn concat_chars(a: &Vec<char>, b: &Vec<char>) -> (r: Vec<char>)
    ensures
        r@ == a@ + b@,
{
    let mut out = a.clone();
    let mut i: usize = 0;
    while i < b.len()
        invariant
            i <= b@.len(),
            out@ == a@ + b@.take(i as int),
        decreases b@.len() - i,
    {
        out.push(b[i]);
        i = i + 1;
        assert(out@ =~= a@ + b@.take(i as int));
    }
    assert(b@.take(b@.len() as int) =~= b@);
    out
}

fn fields_timestamp(f: &Vec<Vec<char>>, offset: &Vec<char>) -> (r: Option<Timestamp>)
    ensures
        r == line_timestamp(char_seqs(f@), offset@),
{
    if f.len() < 2 {
        None
    } else {
        let text = concat_chars(&f[0], offset);
        let s = string_of(text.as_slice());
        parse_rfc3339(s.as_str())
    }
}

/// The chat channel that an upper-case token names.
pub fn parse_channel(s: &Vec<char>) -> (r: Option<NgsLogChannel>)
    ensures
        r == channel_of(s@),
{
    if equals_str(s, "PUBLIC") {
        Some(NgsLogChannel::Public)
    } else if equals_str(s, "PARTY") {
        Some(NgsLogChannel::Party)
    } else if equals_str(s, "GUILD") {
        Some(NgsLogChannel::Guild)
    } else if equals_str(s, "REPLY") {
        Some(NgsLogChannel::Reply)
    } else if equals_str(s, "GROUP") {
        Some(NgsLogChannel::Group)
    } else {
        None
    }
}

/// Decodes the raw body field of a chat line.
pub fn decode_chat_body(raw: &Vec<char>) -> (r: String)
    ensures
        r@ == chat_body(raw@),
{
    let raw_s = string_of(raw.as_slice());
    let b = unescape_double_quote(raw_s.as_str());
    let bc = chars_of(b.as_str());
    if bc.len() == 1 && bc[0] == '"' {
        assert(bc@ =~= seq![quote()]);
        let mut nl: Vec<char> = Vec::new();
        nl.push('\n');
        string_of(nl.as_slice())
    } else if bc.len() >= 2 && bc[0] == '"' && bc[1] != '"' {
        assert(bc@ != seq![quote()]);
        string_of_range(&bc, 1, bc.len())
    } else {
        b
    }
}

fn chat_entry(f: &Vec<Vec<char>>, t: Timestamp) -> (r: Decoded)
    ensures
        r@ == chat_line(char_seqs(f@), t),
{
    if f.len() < 6 {
        return Decoded::Skipped;
    }
    proof {
        whole_fields(f@);
    }
    let id = match parse_uint(&f[1], 0, f[1].len(), 0xffff) {
        Some(v) => v,
        None => return Decoded::Skipped,
    };
    let ch = match parse_channel(&f[2]) {
        Some(c) => c,
        None => return Decoded::Fatal,
    };
    let pid = match parse_uint(&f[3], 0, f[3].len(), 0xffff_ffff) {
        Some(v) => v,
        None => return Decoded::Skipped,
    };
    let name = string_of(f[4].as_slice());
    let body = decode_chat_body(&f[5]);
    Decoded::Entry(
        NgsLog::ChatLog(
            ChatLog {
                datetime: t,
                log_id: id as u16,
                channel: ch,
                player_id: pid,
                name,
                body,
            },
        ),
    )
}

} // verus!

verus! {

pub enum Tail {
    Dropped,
    Unrecognized,
    Item(String, u32),
}

impl View for Tail {
    type V = ItemTail;

    open spec fn view(&self) -> ItemTail {
        match self {
            Tail::Dropped => ItemTail::Dropped,
            Tail::Unrecognized => ItemTail::Unrecognized,
            Tail::Item(s, n) => ItemTail::Item(s@, *n as nat),
        }
    }
}

fn paren_tail(b: &Vec<char>) -> (r: Option<u32>)
    ensures
        match paren_tail_number(b@) {
            Some(n) => r == Some(n as u32),
            None => r is None,
        },
{
    let found = find_char(b, '(');
    match found {
        None => None,
        Some(p) => if p < b.len() - 1 {
            parse_uint(b, p + 1, b.len() - 1, 0xffff_ffff)
        } else {
            None
        },
    }
}

fn pickup_item(f: &Vec<Vec<char>>) -> (r: Tail)
    requires
        f@.len() >= 6,
    ensures
        r@ == pickup_tail(char_seqs(f@)),
{
    proof {
        whole_fields(f@);
        reveal_strlit("Meseta");
    }
    if f[5].len() == 0 {
        if f.len() < 7 {
            Tail::Dropped
        } else if has_prefix(&f[6], "Meseta") {
            let b = &f[6];
            if b.len() >= 8 {
                match parse_uint(b, 7, b.len() - 1, 0xffff_ffff) {
                    Some(n) => Tail::Item(String::from_str("Meseta"), n),
                    None => Tail::Dropped,
                }
            } else {
                Tail::Dropped
            }
        } else {
            Tail::Unrecognized
        }
    } else if f.len() < 7 || has_prefix(&f[6], "CurrentNum") {
        Tail::Item(string_of(f[5].as_slice()), 1)
    } else {
        match paren_tail(&f[6]) {
            Some(n) => Tail::Item(string_of(f[5].as_slice()), if n < 1 { 1 } else { n }),
            None => Tail::Dropped,
        }
    }
}

fn pickup_entry(f: &Vec<Vec<char>>, t: Timestamp) -> (r: Decoded)
    ensures
        r@ == pickup_line(char_seqs(f@), t),
{
    if f.len() < 3 {
        return Decoded::Skipped;
    }
    proof {
        whole_fields(f@);
    }
    let id = match parse_uint(&f[1], 0, f[1].len(), 0xffff) {
        Some(v) => v,
        None => return Decoded::Skipped,
    };
    if !equals_str(&f[2], "[Pickup]") || f.len() < 6 {
        return Decoded::Skipped;
    }
    let pid = match parse_uint(&f[3], 0, f[3].len(), 0xffff_ffff) {
        Some(v) => v,
        None => return Decoded::Skipped,
    };
    match pickup_item(f) {
        Tail::Dropped => Decoded::Skipped,
        Tail::Unrecognized => Decoded::Fatal,
        Tail::Item(item, count) => Decoded::Entry(
            NgsLog::ItemLog(
                ItemLog {
                    datetime: t,
                    log_id: id as u16,
                    category: ItemCategory::Pickup,
                    player_id: pid,
                    name: string_of(f[4].as_slice()),
                    item,
                    count,
                },
            ),
        ),
    }
}

fn bracket_count(b: &Vec<char>) -> (r: Option<u32>)
    ensures
        match bracket_number(b@) {
            Some(n) => r == Some(n as u32),
            None => r is None,
        },
{
    let lpar = find_char(b, '(');
    let rpar = find_char(b, ')');
    let r = match lpar {
        None => None,
        Some(p) => match rpar {
            None => None,
            Some(q) => if p < q {
                let v = parse_uint(b, p + 1, q, 0xffff_ffff);
                v
            } else {
                None
            },
        },
    };
    r
}

fn reward_item(f: &Vec<Vec<char>>, t: Timestamp, id: u16, item: String, count: &Vec<char>) -> (r: Decoded)
    requires
        f@.len() >= 5,
    ensures
        r@ == reward_entry(char_seqs(f@), t, id as nat, item@, count@),
{
    proof {
        whole_fields(f@);
    }
    match bracket_count(count) {
        None => Decoded::Skipped,
        Some(n) => Decoded::Entry(
            NgsLog::ItemLog(
                ItemLog {
                    datetime: t,
                    log_id: id,
                    category: ItemCategory::Reward,
                    player_id: 0,
                    name: string_of(f[3].as_slice()),
                    item,
                    count: n,
                },
            ),
        ),
    }
}

fn reward_entry_of(f: &Vec<Vec<char>>, t: Timestamp) -> (r: Decoded)
    ensures
        r@ == reward_line(char_seqs(f@), t),
{
    if f.len() < 5 {
        return Decoded::Skipped;
    }
    proof {
        whole_fields(f@);
        reveal_strlit("Meseta");
    }
    let id = match parse_uint(&f[1], 0, f[1].len(), 0xffff) {
        Some(v) => v as u16,
        None => return Decoded::Skipped,
    };
    if equals_str(&f[4], "Meseta") && f.len() >= 6 {
        reward_item(f, t, id, String::from_str("Meseta"), &f[5])
    } else if equals_str(&f[4], "Backpack") && f.len() >= 7 {
        reward_item(f, t, id, string_of(f[5].as_slice()), &f[6])
    } else {
        Decoded::Skipped
    }
}

/// Decodes one line of `source` against the local offset text and the watermark.
pub fn decode_line(source: LogSource, line: &Vec<char>, offset: &Vec<char>, w: &Timestamp) -> (r: Decoded)
    ensures
        r@ == line_effect(source, line@, offset@, *w),
{
    let f = split_fields(line);
    match fields_timestamp(&f, offset) {
        None => match source {
            LogSource::Chat => Decoded::Continuation,
            _ => Decoded::Skipped,
        },
        Some(t) => if !t.is_after(w) {
            Decoded::Skipped
        } else {
            match source {
                LogSource::Chat => chat_entry(&f, t),
                LogSource::Action => pickup_entry(&f, t),
                LogSource::Reward => reward_entry_of(&f, t),
            }
        },
    }
}

} // verus!

verus! {

/// The text that a continuation line adds to the open chat body.
pub fn continuation(line: &str) -> (r: String)
    ensures
        r@ == continuation_text(line@),
{
    let p = pre_unescape_double_quote(line);
    let pc = chars_of(p.as_str());
    if pc.len() > 0 && pc[pc.len() - 1] == '"' {
        let cut = string_of_range(&pc, 0, pc.len() - 1);
        assert(pc@.subrange(0, pc@.len() - 1) =~= pc@.drop_last());
        finish_unescape_double_quote(cut.as_str())
    } else {
        finish_unescape_double_quote(p.as_str())
    }
}

proof fn lemma_fatal_sticks(source: LogSource, lines: Seq<Seq<char>>, n: int, offset: Seq<char>, w: Timestamp)
    requires
        0 <= n <= lines.len(),
        decoded_logs(source, lines.take(n), offset, w) is None,
    ensures
        decoded_logs(source, lines, offset, w) is None,
    decreases lines.len() - n,
{
    if n < lines.len() {
        assert(lines.take(n + 1).drop_last() =~= lines.take(n));
        lemma_fatal_sticks(source, lines, n + 1, offset, w);
    } else {
        assert(lines.take(n) =~= lines);
    }
}

/// Decodes every line of `source`, keeping the entries newer than `w`.
/// Fails, with nothing kept, when a line holds an unrecognised value.
pub fn decode_lines(source: LogSource, lines: &Vec<String>, offset: &Vec<char>, w: &Timestamp) -> (r: Result<Vec<NgsLog>, NgsLogActionError>)
    ensures
        match decoded_logs(source, string_views(lines@), offset@, *w) {
            Some(v) => r is Ok && log_views(r->Ok_0@) == v,
            None => r == Err::<Vec<NgsLog>, NgsLogActionError>(NgsLogActionError::UnrecognizedFormat),
        },
{
    let ghost all = string_views(lines@);
    let mut logs: Vec<NgsLog> = Vec::new();
    let mut i: usize = 0;
    assert(all.take(0) =~= Seq::<Seq<char>>::empty());
    assert(log_views(logs@) =~= Seq::<NgsLogView>::empty());
    while i < lines.len()
        invariant
            i <= lines@.len(),
            all == string_views(lines@),
            decoded_logs(source, all.take(i as int), offset@, *w) == Some(log_views(logs@)),
        decreases lines@.len() - i,
    {
        let line = chars_of(lines[i].as_str());
        let d = decode_line(source, &line, offset, w);
        let ghost before = logs@;
        assert(all.take(i + 1).drop_last() =~= all.take(i as int));
        assert(all.take(i + 1).last() == lines@[i as int]@);
        match d {
            Decoded::Skipped => {},
            Decoded::Fatal => {
                proof {
                    lemma_fatal_sticks(source, all, i + 1, offset@, *w);
                }
                return Err(NgsLogActionError::UnrecognizedFormat);
            },
            Decoded::Entry(e) => {
                logs.push(e);
                assert(log_views(logs@) =~= log_views(before).push(e@));
            },
            Decoded::Continuation => {
                if logs.len() > 0 {
                    let text = continuation(lines[i].as_str());
                    let mut last = logs.pop().unwrap();
                    assert(before.drop_last() =~= logs@);
                    last.append_body(text.as_str());
                    logs.push(last);
                    assert(log_views(logs@) =~= log_views(before).update(
                        log_views(before).len() - 1,
                        log_views(before).last().appended(continuation_text(lines@[i as int]@)),
                    ));
                }
            },
        }
        i = i + 1;
    }
    assert(all.take(lines@.len() as int) =~= all);
    Ok(logs)
}

} // verus!

verus! {

proof fn lemma_step_keeps_times(acc: Seq<NgsLogView>, e: LineEffect, line: Seq<char>)
    requires
        apply_effect(acc, e, line) is Some,
    ensures
        apply_effect(acc, e, line)->Some_0.len() >= acc.len(),
        forall|i: int| 0 <= i < acc.len() ==> (#[trigger] apply_effect(acc, e, line)->Some_0[i]).datetime()
            == acc[i].datetime(),
{
}

/// Every entry decoded against `w` is later than `w`.
pub proof fn lemma_decoded_after(source: LogSource, lines: Seq<Seq<char>>, offset: Seq<char>, w: Timestamp)
    requires
        decoded_logs(source, lines, offset, w) is Some,
    ensures
        forall|i: int| 0 <= i < decoded_logs(source, lines, offset, w)->Some_0.len()
            ==> !ts_le(#[trigger] decoded_logs(source, lines, offset, w)->Some_0[i].datetime(), w),
    decreases lines.len(),
{
    if lines.len() > 0 {
        let l = lines.last();
        let acc = decoded_logs(source, lines.drop_last(), offset, w)->Some_0;
        lemma_decoded_after(source, lines.drop_last(), offset, w);
        lemma_step_keeps_times(acc, line_effect(source, l, offset, w), l);
    }
}

proof fn lemma_prefix_times(source: LogSource, lines: Seq<Seq<char>>, n: int, offset: Seq<char>, w: Timestamp)
    requires
        0 <= n <= lines.len(),
        decoded_logs(source, lines, offset, w) is Some,
    ensures
        decoded_logs(source, lines.take(n), offset, w) is Some,
        decoded_logs(source, lines.take(n), offset, w)->Some_0.len() <= decoded_logs(source, lines, offset, w)->Some_0.len(),
        forall|i: int| 0 <= i < decoded_logs(source, lines.take(n), offset, w)->Some_0.len()
            ==> (#[trigger] decoded_logs(source, lines, offset, w)->Some_0[i]).datetime()
                == decoded_logs(source, lines.take(n), offset, w)->Some_0[i].datetime(),
    decreases lines.len() - n,
{
    if n == lines.len() {
        assert(lines.take(n) =~= lines);
    } else {
        if decoded_logs(source, lines.take(n), offset, w) is None {
            lemma_fatal_sticks(source, lines, n, offset, w);
        }
        lemma_prefix_times(source, lines, n + 1, offset, w);
        let t = lines.take(n + 1);
        assert(t.drop_last() =~= lines.take(n));
        let acc = decoded_logs(source, lines.take(n), offset, w)->Some_0;
        lemma_step_keeps_times(acc, line_effect(source, t.last(), offset, w), t.last());
    }
}

/// Decoding the same lines again, with the watermark moved to a time no
/// entry of the first decoding passes, gives no entry.
pub proof fn lemma_redecode_is_empty(
    source: LogSource,
    lines: Seq<Seq<char>>,
    offset: Seq<char>,
    w1: Timestamp,
    w2: Timestamp,
)
    requires
        decoded_logs(source, lines, offset, w1) is Some,
        ts_le(w1, w2),
        forall|i: int| 0 <= i < decoded_logs(source, lines, offset, w1)->Some_0.len()
            ==> ts_le(#[trigger] decoded_logs(source, lines, offset, w1)->Some_0[i].datetime(), w2),
    ensures
        decoded_logs(source, lines, offset, w2) == Some(Seq::<NgsLogView>::empty()),
    decreases lines.len(),
{
    if lines.len() > 0 {
        let init = lines.drop_last();
        let l = lines.last();
        let v = decoded_logs(source, lines, offset, w1)->Some_0;
        lemma_prefix_times(source, lines, lines.len() - 1, offset, w1);
        assert(lines.take(lines.len() - 1) =~= init);
        let a = decoded_logs(source, init, offset, w1)->Some_0;
        assert forall|i: int| 0 <= i < a.len() implies ts_le(#[trigger] a[i].datetime(), w2) by {
            assert(v[i].datetime() == a[i].datetime());
        }
        lemma_redecode_is_empty(source, init, offset, w1, w2);
        let f = split_tab(l);
        match line_timestamp(f, offset) {
            None => {},
            Some(t) => {
                if !ts_le(t, w2) {
                    assert(!ts_le(t, w1));
                    let e = line_effect(source, l, offset, w1);
                    assert(line_effect(source, l, offset, w2) == e);
                    match e {
                        LineEffect::Entry(x) => {
                            assert(v == a.push(x));
                            assert(v[a.len() as int] == x);
                            assert(ts_le(x.datetime(), w2));
                            assert(x.datetime() == t);
                        },
                        _ => {},
                    }
                }
            },
        }
    }
}

} // verus!
