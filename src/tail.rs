//! One poll cycle: the newest file of each source, the entries after the
//! watermark, and their merge in time order.
use vstd::prelude::*;

use crate::error::NgsLogActionError;
use crate::ngs_log::{ts_le, NgsLog, NgsLogView, Timestamp};
use crate::parse::{
    decode_lines, decoded_logs, lemma_decoded_after, lemma_redecode_is_empty, log_views, string_views,
    LogSource,
};
use crate::text::{chars_of, has_prefix, starts_with};

verus! {

/// `s` with `x` placed after every entry that is not later than it, as a
/// stable sort places the last of its inputs.
pub open spec fn insert_by_time(s: Seq<NgsLogView>, x: NgsLogView) -> Seq<NgsLogView>
    decreases s.len(),
{
    if s.len() == 0 {
        seq![x]
    } else if ts_le(s.last().datetime(), x.datetime()) {
        s.push(x)
    } else {
        insert_by_time(s.drop_last(), x).push(s.last())
    }
}

/// `s` stably sorted by timestamp: entries with equal timestamps keep
/// their order.
pub open spec fn sorted_by_time(s: Seq<NgsLogView>) -> Seq<NgsLogView>
    decreases s.len(),
{
    if s.len() == 0 {
        s
    } else {
        insert_by_time(sorted_by_time(s.drop_last()), s.last())
    }
}

pub open spec fn time_sorted(s: Seq<NgsLogView>) -> bool {
    forall|i: int, j: int| 0 <= i < j < s.len() ==> ts_le(#[trigger] s[i].datetime(), #[trigger] s[j].datetime())
}

proof fn lemma_insert_at(s: Seq<NgsLogView>, x: NgsLogView, j: int)
    requires
        0 <= j <= s.len(),
        forall|k: int| j <= k < s.len() ==> !ts_le(#[trigger] s[k].datetime(), x.datetime()),
        j == 0 || ts_le(s[j - 1].datetime(), x.datetime()),
    ensures
        insert_by_time(s, x) == s.insert(j, x),
    decreases s.len(),
{
    if s.len() == j {
        if j == 0 {
            assert(s.insert(0, x) =~= seq![x]);
        } else {
            assert(s.insert(j, x) =~= s.push(x));
        }
    } else {
        let t = s.drop_last();
        lemma_insert_at(t, x, j);
        assert(t.insert(j, x).push(s.last()) =~= s.insert(j, x));
    }
}

proof fn lemma_insert_len(s: Seq<NgsLogView>, x: NgsLogView)
    ensures
        insert_by_time(s, x).len() == s.len() + 1,
    decreases s.len(),
{
    if s.len() > 0 && !ts_le(s.last().datetime(), x.datetime()) {
        lemma_insert_len(s.drop_last(), x);
    }
}

proof fn lemma_insert_bounded(s: Seq<NgsLogView>, x: NgsLogView, b: Timestamp)
    requires
        forall|i: int| 0 <= i < s.len() ==> ts_le(#[trigger] s[i].datetime(), b),
        ts_le(x.datetime(), b),
    ensures
        forall|i: int| 0 <= i < insert_by_time(s, x).len() ==> ts_le(#[trigger] insert_by_time(s, x)[i].datetime(), b),
    decreases s.len(),
{
    if s.len() > 0 && !ts_le(s.last().datetime(), x.datetime()) {
        let t = s.drop_last();
        lemma_insert_bounded(t, x, b);
        lemma_insert_len(t, x);
        assert forall|i: int| 0 <= i < insert_by_time(s, x).len() implies ts_le(#[trigger] insert_by_time(s, x)[i].datetime(), b) by {
            if i < insert_by_time(t, x).len() {
                assert(insert_by_time(s, x)[i] == insert_by_time(t, x)[i]);
            }
        }
    }
}

proof fn lemma_insert_sorted(s: Seq<NgsLogView>, x: NgsLogView)
    requires
        time_sorted(s),
    ensures
        time_sorted(insert_by_time(s, x)),
    decreases s.len(),
{
    if s.len() == 0 {
    } else if ts_le(s.last().datetime(), x.datetime()) {
        assert forall|i: int, j: int| 0 <= i < j < s.len() + 1 implies ts_le(#[trigger] s.push(x)[i].datetime(), #[trigger] s.push(x)[j].datetime()) by {
            if j == s.len() {
                if i < s.len() - 1 {
                    assert(ts_le(s[i].datetime(), s[s.len() - 1].datetime()));
                }
            }
        }
    } else {
        let t = s.drop_last();
        let l = s.last();
        assert(time_sorted(t));
        lemma_insert_sorted(t, x);
        lemma_insert_len(t, x);
        assert forall|i: int| 0 <= i < t.len() implies ts_le(#[trigger] t[i].datetime(), l.datetime()) by {
            assert(ts_le(s[i].datetime(), s[s.len() - 1].datetime()));
        }
        lemma_insert_bounded(t, x, l.datetime());
        let r = insert_by_time(t, x);
        assert forall|i: int, j: int| 0 <= i < j < r.len() + 1 implies ts_le(#[trigger] r.push(l)[i].datetime(), #[trigger] r.push(l)[j].datetime()) by {
            if j == r.len() {
                assert(ts_le(r[i].datetime(), l.datetime()));
            } else {
                assert(ts_le(r[i].datetime(), r[j].datetime()));
            }
        }
    }
}

proof fn lemma_insert_multiset(s: Seq<NgsLogView>, x: NgsLogView)
    ensures
        insert_by_time(s, x).to_multiset() == s.to_multiset().insert(x),
    decreases s.len(),
{
    broadcast use vstd::seq_lib::group_to_multiset_ensures;

    if s.len() > 0 && !ts_le(s.last().datetime(), x.datetime()) {
        let t = s.drop_last();
        lemma_insert_multiset(t, x);
        assert(s == t.push(s.last()));
        assert(insert_by_time(s, x).to_multiset() =~= s.to_multiset().insert(x));
    }
}

/// The merge puts entries in time order, whatever order each source gave
/// them in, and keeps exactly the entries it was given.
pub proof fn lemma_sorted_by_time(s: Seq<NgsLogView>)
    ensures
        time_sorted(sorted_by_time(s)),
        sorted_by_time(s).len() == s.len(),
        sorted_by_time(s).to_multiset() == s.to_multiset(),
    decreases s.len(),
{
    broadcast use vstd::seq_lib::group_to_multiset_ensures;

    if s.len() > 0 {
        let t = s.drop_last();
        lemma_sorted_by_time(t);
        lemma_insert_sorted(sorted_by_time(t), s.last());
        lemma_insert_len(sorted_by_time(t), s.last());
        lemma_insert_multiset(sorted_by_time(t), s.last());
        assert(s == t.push(s.last()));
    }
}

/// Sorts entries by timestamp; entries with equal timestamps keep their order.
pub fn sort_by_time(v: Vec<NgsLog>) -> (r: Vec<NgsLog>)
    ensures
        log_views(r@) == sorted_by_time(log_views(v@)),
{
    let ghost input = log_views(v@);
    let mut rest = v;
    let mut out: Vec<NgsLog> = Vec::new();
    let mut k: usize = 0;
    let n = rest.len();
    assert(input.take(0) =~= Seq::<NgsLogView>::empty());
    assert(log_views(out@) =~= Seq::<NgsLogView>::empty());
    while rest.len() > 0
        invariant
            k + rest@.len() == n,
            n == input.len(),
            log_views(rest@) == input.skip(k as int),
            log_views(out@) == sorted_by_time(input.take(k as int)),
        decreases rest@.len(),
    {
        let ghost before = rest@;
        assert(log_views(before)[0] == input.skip(k as int)[0]);
        let x = rest.remove(0);
        assert(x@ == input[k as int]);
        assert(rest@ =~= before.skip(1));
        assert(log_views(rest@) =~= log_views(before).skip(1));
        assert(input.skip(k as int).skip(1) =~= input.skip(k + 1));
        let ghost cur = log_views(out@);
        let mut j = out.len();
        while j > 0 && out[j - 1].get_datetime().is_after(x.get_datetime())
            invariant
                j <= out@.len(),
                cur == log_views(out@),
                forall|m: int| j <= m < out@.len() ==> !ts_le(#[trigger] cur[m].datetime(), x@.datetime()),
            decreases j,
        {
            j = j - 1;
        }
        proof {
            lemma_insert_at(cur, x@, j as int);
            assert(input.take(k + 1).drop_last() =~= input.take(k as int));
        }
        out.insert(j, x);
        assert(log_views(out@) =~= cur.insert(j as int, x@));
        k = k + 1;
    }
    assert(input.take(n as int) =~= input);
    out
}

} // verus!

verus! {

/// The new entries of a poll cycle: each source decoded against the
/// watermark, then all of them merged in time order; `None` when a source
/// holds an unrecognised value.
pub open spec fn new_logs(
    chat: Seq<Seq<char>>,
    action: Seq<Seq<char>>,
    reward: Seq<Seq<char>>,
    offset: Seq<char>,
    w: Timestamp,
) -> Option<Seq<NgsLogView>> {
    match decoded_logs(LogSource::Chat, chat, offset, w) {
        None => None,
        Some(c) => match decoded_logs(LogSource::Action, action, offset, w) {
            None => None,
            Some(a) => match decoded_logs(LogSource::Reward, reward, offset, w) {
                None => None,
                Some(r) => Some(sorted_by_time(c + a + r)),
            },
        },
    }
}

/// The new chat entries among `lines`.
pub fn get_new_chat_logs(lines: &Vec<String>, offset: &str, last_datetime: &Timestamp) -> (r: Result<Vec<NgsLog>, NgsLogActionError>)
    ensures
        match decoded_logs(LogSource::Chat, string_views(lines@), offset@, *last_datetime) {
            Some(v) => r is Ok && log_views(r->Ok_0@) == v,
            None => r == Err::<Vec<NgsLog>, NgsLogActionError>(NgsLogActionError::UnrecognizedFormat),
        },
{
    decode_lines(LogSource::Chat, lines, &chars_of(offset), last_datetime)
}

/// The new pickup entries among `lines`.
pub fn get_new_action_logs(lines: &Vec<String>, offset: &str, last_datetime: &Timestamp) -> (r: Result<Vec<NgsLog>, NgsLogActionError>)
    ensures
        match decoded_logs(LogSource::Action, string_views(lines@), offset@, *last_datetime) {
            Some(v) => r is Ok && log_views(r->Ok_0@) == v,
            None => r == Err::<Vec<NgsLog>, NgsLogActionError>(NgsLogActionError::UnrecognizedFormat),
        },
{
    decode_lines(LogSource::Action, lines, &chars_of(offset), last_datetime)
}

/// The new reward entries among `lines`.
pub fn get_new_reward_logs(lines: &Vec<String>, offset: &str, last_datetime: &Timestamp) -> (r: Result<Vec<NgsLog>, NgsLogActionError>)
    ensures
        match decoded_logs(LogSource::Reward, string_views(lines@), offset@, *last_datetime) {
            Some(v) => r is Ok && log_views(r->Ok_0@) == v,
            None => r == Err::<Vec<NgsLog>, NgsLogActionError>(NgsLogActionError::UnrecognizedFormat),
        },
{
    decode_lines(LogSource::Reward, lines, &chars_of(offset), last_datetime)
}

/// The new entries of the three sources, merged in time order, read
/// against the offset text `offset`.
pub fn collect_new_logs(
    chat: &Vec<String>,
    action: &Vec<String>,
    reward: &Vec<String>,
    offset: &str,
    last_datetime: &Timestamp,
) -> (r: Result<Vec<NgsLog>, NgsLogActionError>)
    ensures
        match new_logs(string_views(chat@), string_views(action@), string_views(reward@), offset@, *last_datetime) {
            Some(v) => r is Ok && log_views(r->Ok_0@) == v,
            None => r == Err::<Vec<NgsLog>, NgsLogActionError>(NgsLogActionError::UnrecognizedFormat),
        },
{
    let mut all = get_new_chat_logs(chat, offset, last_datetime)?;
    let mut a = get_new_action_logs(action, offset, last_datetime)?;
    let mut r = get_new_reward_logs(reward, offset, last_datetime)?;
    let ghost cv = log_views(all@);
    let ghost av = log_views(a@);
    let ghost rv = log_views(r@);
    all.append(&mut a);
    all.append(&mut r);
    assert(log_views(all@) =~= cv + av + rv);
    Ok(sort_by_time(all))
}

/// Relies on chrono's `Local` time zone, read at the Unix epoch, and on the
/// `Debug` text of its fixed offset (`+09:00`); depends on the machine.
#[verifier::external_body]
fn local_offset_text() -> (r: Option<String>)
{
    match chrono::TimeZone::timestamp_opt(&chrono::Local, 0, 0) {
        chrono::LocalResult::Single(d) => Some(format!("{:?}", chrono::Offset::fix(d.offset()))),
        _ => None,
    }
}

/// The new entries of the three sources, merged in time order, read in the
/// machine's local UTC offset.
pub fn get_new_logs(
    chat: &Vec<String>,
    action: &Vec<String>,
    reward: &Vec<String>,
    last_datetime: &Timestamp,
) -> (r: Result<Vec<NgsLog>, NgsLogActionError>)
    ensures
        r matches Ok(v) ==> exists|offset: Seq<char>|
            new_logs(string_views(chat@), string_views(action@), string_views(reward@), offset, *last_datetime)
                == Some(log_views(v@)),
        r matches Err(e) ==> e == NgsLogActionError::UnrecognizedFormat || e == NgsLogActionError::LocalOffsetUnavailable,
{
    match local_offset_text() {
        None => Err(NgsLogActionError::LocalOffsetUnavailable),
        Some(offset) => collect_new_logs(chat, action, reward, offset.as_str(), last_datetime),
    }
}

/// The watermark after a batch: the timestamp of its last entry, or the
/// old watermark when the batch is empty.
pub fn next_watermark(batch: &Vec<NgsLog>, w: &Timestamp) -> (r: Timestamp)
    ensures
        r == (if batch@.len() == 0 { *w } else { batch@.last()@.datetime() }),
{
    if batch.len() == 0 {
        *w
    } else {
        *batch[batch.len() - 1].get_datetime()
    }
}

/// A file of a log directory: its name and when it was last modified.
pub struct LogFileEntry {
    pub name: String,
    pub modified_nanos: u128,
}

/// Entry `i` is the one a stable sort by modification time, newest first,
/// puts first among the names that start with `prefix`.
pub open spec fn is_latest(entries: Seq<LogFileEntry>, prefix: Seq<char>, i: int) -> bool {
    &&& 0 <= i < entries.len()
    &&& starts_with(entries[i].name@, prefix)
    &&& forall|j: int| 0 <= j < entries.len() && starts_with(#[trigger] entries[j].name@, prefix)
        ==> entries[j].modified_nanos < entries[i].modified_nanos
            || (entries[j].modified_nanos == entries[i].modified_nanos && i <= j)
}

/// The most recently modified entry whose name starts with `prefix`; among
/// equally recent ones, the first listed.
pub fn latest_with_prefix(entries: &Vec<LogFileEntry>, prefix: &str) -> (r: Option<usize>)
    ensures
        match r {
            Some(i) => is_latest(entries@, prefix@, i as int),
            None => forall|j: int| 0 <= j < entries@.len() ==> !starts_with(#[trigger] entries@[j].name@, prefix@),
        },
{
    let mut best: Option<usize> = None;
    let mut j: usize = 0;
    while j < entries.len()
        invariant
            j <= entries@.len(),
            match best {
                Some(i) => i < j && starts_with(entries@[i as int].name@, prefix@)
                    && forall|k: int| 0 <= k < j && starts_with(#[trigger] entries@[k].name@, prefix@)
                        ==> entries@[k].modified_nanos < entries@[i as int].modified_nanos
                            || (entries@[k].modified_nanos == entries@[i as int].modified_nanos && i <= k),
                None => forall|k: int| 0 <= k < j ==> !starts_with(#[trigger] entries@[k].name@, prefix@),
            },
        decreases entries@.len() - j,
    {
        let name = chars_of(entries[j].name.as_str());
        if has_prefix(&name, prefix) {
            match best {
                None => {
                    best = Some(j);
                },
                Some(i) => {
                    if entries[j].modified_nanos > entries[i].modified_nanos {
                        best = Some(j);
                    }
                },
            }
        }
        j = j + 1;
    }
    best
}

} // verus!

verus! {

proof fn lemma_sorted_last_is_max(s: Seq<NgsLogView>)
    requires
        s.len() > 0,
    ensures
        forall|i: int| 0 <= i < s.len() ==> ts_le(#[trigger] s[i].datetime(), sorted_by_time(s).last().datetime()),
    decreases s.len(),
{
    let t = s.drop_last();
    let x = s.last();
    lemma_sorted_by_time(t);
    lemma_sorted_by_time(s);
    let st = sorted_by_time(t);
    if t.len() == 0 {
        assert(s.len() == 1);
    } else {
        lemma_sorted_last_is_max(t);
        let r = sorted_by_time(s);
        if ts_le(st.last().datetime(), x.datetime()) {
            assert(r == st.push(x));
            assert forall|i: int| 0 <= i < s.len() implies ts_le(#[trigger] s[i].datetime(), r.last().datetime()) by {
                if i < t.len() {
                    assert(s[i] == t[i]);
                }
            }
        } else {
            assert(r == insert_by_time(st.drop_last(), x).push(st.last()));
            assert forall|i: int| 0 <= i < s.len() implies ts_le(#[trigger] s[i].datetime(), r.last().datetime()) by {
                if i < t.len() {
                    assert(s[i] == t[i]);
                }
            }
        }
    }
}

/// Polling unchanged files again, once the watermark has moved to the last
/// entry of a non-empty batch, gives an empty batch.
pub proof fn lemma_repoll_is_empty(
    chat: Seq<Seq<char>>,
    action: Seq<Seq<char>>,
    reward: Seq<Seq<char>>,
    offset: Seq<char>,
    w: Timestamp,
)
    requires
        new_logs(chat, action, reward, offset, w) is Some,
        new_logs(chat, action, reward, offset, w)->Some_0.len() > 0,
    ensures
        new_logs(chat, action, reward, offset, new_logs(chat, action, reward, offset, w)->Some_0.last().datetime())
            == Some(Seq::<NgsLogView>::empty()),
{
    let c = decoded_logs(LogSource::Chat, chat, offset, w)->Some_0;
    let a = decoded_logs(LogSource::Action, action, offset, w)->Some_0;
    let r = decoded_logs(LogSource::Reward, reward, offset, w)->Some_0;
    let all = c + a + r;
    let b = sorted_by_time(all);
    let w2 = b.last().datetime();
    lemma_sorted_by_time(all);
    lemma_sorted_last_is_max(all);
    lemma_decoded_after(LogSource::Chat, chat, offset, w);
    lemma_decoded_after(LogSource::Action, action, offset, w);
    lemma_decoded_after(LogSource::Reward, reward, offset, w);
    assert forall|i: int| 0 <= i < all.len() implies !ts_le(#[trigger] all[i].datetime(), w) by {
        if i < c.len() {
            assert(all[i] == c[i]);
        } else if i < c.len() + a.len() {
            assert(all[i] == a[i - c.len()]);
        } else {
            assert(all[i] == r[i - c.len() - a.len()]);
        }
    }
    assert(!ts_le(all[0].datetime(), w));
    assert(ts_le(all[0].datetime(), w2));
    assert(ts_le(w, w2));
    assert forall|i: int| 0 <= i < c.len() implies ts_le(#[trigger] c[i].datetime(), w2) by {
        assert(all[i] == c[i]);
    }
    assert forall|i: int| 0 <= i < a.len() implies ts_le(#[trigger] a[i].datetime(), w2) by {
        assert(all[c.len() + i] == a[i]);
    }
    assert forall|i: int| 0 <= i < r.len() implies ts_le(#[trigger] r[i].datetime(), w2) by {
        assert(all[c.len() + a.len() + i] == r[i]);
    }
    lemma_redecode_is_empty(LogSource::Chat, chat, offset, w, w2);
    lemma_redecode_is_empty(LogSource::Action, action, offset, w, w2);
    lemma_redecode_is_empty(LogSource::Reward, reward, offset, w, w2);
    let e = Seq::<NgsLogView>::empty();
    assert(e + e + e =~= e);
}

} // verus!
