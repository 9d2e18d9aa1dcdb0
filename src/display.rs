//! The text that the display actions print.
use vstd::prelude::*;
use vstd::string::*;
use std::fmt::Write;

use crate::conf::{Conf, Global};
use crate::counter::{entry_views, Counter};
use crate::text::{decimal, digit_char, grouped_decimal};
use crate::ngs_log::{NgsLog, NgsLogView, Timestamp};

verus! {

/// How many terminal columns the unicode-width crate gives a text.
pub uninterp spec fn unicode_width_of(s: Seq<char>) -> nat;

/// What `str::to_uppercase` makes of a text.
pub uninterp spec fn uppercase_of(s: Seq<char>) -> Seq<char>;

/// What chrono's `format` writes for a timestamp and a format string, or
/// `None` when the format string holds an item it cannot write or the
/// timestamp is outside chrono's range.
pub uninterp spec fn strftime_text(t: Timestamp, fmt: Seq<char>) -> Option<Seq<char>>;

/// What chrono's `Display` writes for a timestamp in its own offset, or
/// `None` when the timestamp is outside chrono's range.
pub uninterp spec fn display_text(t: Timestamp) -> Option<Seq<char>>;

/// Relies on `UnicodeWidthStr::width` of the unicode-width crate.
#[verifier::external_body]
fn text_width(s: &str) -> (r: usize)
    ensures
        r as nat == unicode_width_of(s@),
{
    unicode_width::UnicodeWidthStr::width(s)
}

/// Relies on `str::to_uppercase`; the result depends on the text alone.
#[verifier::external_body]
fn to_upper(s: &str) -> (r: String)
    ensures
        r@ == uppercase_of(s@),
{
    s.to_uppercase()
}

/// Relies on chrono's `DelayedFormat`, written with `write!` so that a bad
/// format string gives `None`; the timestamp is rebuilt with
/// `DateTime::from_timestamp` and `FixedOffset::east_opt`.
#[verifier::external_body]
fn strftime(t: Timestamp, fmt: &str) -> (r: Option<String>)
    ensures
        r matches Some(s) ==> strftime_text(t, fmt@) == Some(s@),
        r is None ==> strftime_text(t, fmt@) is None,
{
    let off = chrono::FixedOffset::east_opt(t.offset)?;
    let d = chrono::DateTime::from_timestamp(t.secs, t.nanos)?.with_timezone(&off);
    let mut s = String::new();
    match write!(s, "{}", d.format(fmt)) {
        Ok(()) => Some(s),
        Err(_) => None,
    }
}

/// Relies on chrono's `Display` for `DateTime<FixedOffset>`; the timestamp
/// is rebuilt with `DateTime::from_timestamp` and `FixedOffset::east_opt`.
#[verifier::external_body]
pub(crate) fn display_time(t: Timestamp) -> (r: Option<String>)
    ensures
        r matches Some(s) ==> display_text(t) == Some(s@),
        r is None ==> display_text(t) is None,
{
    let off = chrono::FixedOffset::east_opt(t.offset)?;
    let d = chrono::DateTime::from_timestamp(t.secs, t.nanos)?.with_timezone(&off);
    Some(d.to_string())
}

pub open spec fn spaces(n: int) -> Seq<char> {
    Seq::new(if n > 0 { n as nat } else { 0 }, |i: int| ' ')
}

/// `n` spaces.
pub fn make_spaces(n: usize) -> (r: String)
    ensures
        r@ == spaces(n as int),
{
    let mut out: Vec<char> = Vec::new();
    let mut i: usize = 0;
    while i < n
        invariant
            i <= n,
            out@ == spaces(i as int),
        decreases n - i,
    {
        out.push(' ');
        i = i + 1;
        assert(out@ =~= spaces(i as int));
    }
    crate::text::string_of(out.as_slice())
}

/// The text between columns.
pub open spec fn separator(g: Option<Global>) -> Seq<char> {
    match g {
        Some(g) => match g.column_separator {
            Some(s) => s@,
            None => " "@,
        },
        None => " "@,
    }
}

/// How a timestamp is shown: with the configured format, nothing for an
/// empty format, chrono's default text when none is configured.
pub open spec fn datetime_text(g: Option<Global>, t: Timestamp) -> Option<Seq<char>> {
    match g {
        Some(g) => match g.datetime_format {
            Some(f) => if f@.len() == 0 {
                Some(Seq::empty())
            } else {
                strftime_text(t, f@)
            },
            None => display_text(t),
        },
        None => display_text(t),
    }
}

/// Formats a timestamp as the configuration asks.
pub fn format_datetime(conf: &Conf, datetime: &Timestamp) -> (r: Option<String>)
    ensures
        match datetime_text(conf.global, *datetime) {
            Some(s) => r matches Some(x) && x@ == s,
            None => r is None,
        },
{
    match &conf.global {
        Some(g) => match &g.datetime_format {
            Some(f) => if f.as_str().is_empty() {
                Some(String::new())
            } else {
                strftime(*datetime, f.as_str())
            },
            None => display_time(*datetime),
        },
        None => display_time(*datetime),
    }
}

pub open spec fn channel_width(g: Option<Global>) -> int {
    match g {
        Some(g) => match g.channel_padding_width {
            Some(w) => w as int,
            None => 6,
        },
        None => 6,
    }
}

pub open spec fn name_width(g: Option<Global>) -> int {
    match g {
        Some(g) => match g.name_padding_width {
            Some(w) => w as int,
            None => 30,
        },
        None => 30,
    }
}

/// The channel column: the channel or category name padded to its width,
/// with the separator, upper-cased; empty when channels are hidden.
pub open spec fn channel_column(g: Option<Global>, log: NgsLogView) -> Seq<char> {
    if (g matches Some(x) && x.show_channel == Some(false)) {
        Seq::empty()
    } else {
        let c = log.channel_or_category_name();
        uppercase_of(c + spaces(channel_width(g) - c.len()) + separator(g))
    }
}

/// The line the display action prints for an entry, after the timestamp
/// text `dt`: action tag or separator, timestamp, channel, name padded to
/// its width in columns, then the body or the item with its count.
pub open spec fn show_line_text(g: Option<Global>, log: NgsLogView, dt: Seq<char>) -> Seq<char> {
    let sep = separator(g);
    let head = if (g matches Some(x) && x.show_action_pattern == Some(true)) {
        "[Action::Show]"@ + sep
    } else {
        sep
    };
    head + dt + sep + channel_column(g, log) + log.name() + spaces(
        name_width(g) - unicode_width_of(log.name()),
    ) + sep + log.body_or_item_with_count()
}

/// Builds the line that the display action prints for an entry; `None`
/// when its timestamp cannot be written.
pub fn show_line(conf: &Conf, ngs_log: &NgsLog) -> (r: Option<String>)
    ensures
        match datetime_text(conf.global, ngs_log@.datetime()) {
            Some(dt) => r matches Some(x) && x@ == show_line_text(conf.global, ngs_log@, dt),
            None => r is None,
        },
{
    let dt = match format_datetime(conf, ngs_log.get_datetime()) {
        Some(d) => d,
        None => return None,
    };
    let sep = conf.get_column_separator();
    let mut out = if conf.is_show_action_pattern() {
        let mut h = String::from_str("[Action::Show]");
        h.append(sep.as_str());
        h
    } else {
        sep.clone()
    };
    out.append(dt.as_str());
    out.append(sep.as_str());
    let hidden = match &conf.global {
        Some(g) => g.show_channel == Some(false),
        None => false,
    };
    if !hidden {
        let cw: usize = match &conf.global {
            Some(g) => match g.channel_padding_width {
                Some(w) => w as usize,
                None => 6,
            },
            None => 6,
        };
        let mut c = ngs_log.get_channel_or_category_string();
        let clen = c.as_str().unicode_len();
        let pad = if clen < cw {
            make_spaces(cw - clen)
        } else {
            String::new()
        };
        assert(pad@ =~= spaces(channel_width(conf.global) - ngs_log@.channel_or_category_name().len()));
        c.append(pad.as_str());
        c.append(sep.as_str());
        let up = to_upper(c.as_str());
        out.append(up.as_str());
        assert(up@ == channel_column(conf.global, ngs_log@));
    } else {
        assert(channel_column(conf.global, ngs_log@) =~= Seq::<char>::empty());
        assert(out@ =~= out@ + channel_column(conf.global, ngs_log@));
    }
    let ghost upto_channel = out@;
    let name = ngs_log.get_name();
    let nw: usize = match &conf.global {
        Some(g) => match g.name_padding_width {
            Some(w) => w as usize,
            None => 30,
        },
        None => 30,
    };
    let width = text_width(name.as_str());
    let pad = if width < nw {
        make_spaces(nw - width)
    } else {
        String::new()
    };
    out.append(name.as_str());
    out.append(pad.as_str());
    out.append(sep.as_str());
    let body = ngs_log.get_body_or_item_with_count();
    out.append(body.as_str());
    proof {
        let g = conf.global;
        let sp = separator(g);
        let head = if (g matches Some(x) && x.show_action_pattern == Some(true)) {
            "[Action::Show]"@ + sp
        } else {
            sp
        };
        assert(pad@ =~= spaces(name_width(g) - unicode_width_of(ngs_log@.name())));
        assert(upto_channel =~= head + dt@ + sp + channel_column(g, ngs_log@));
        assert(out@ =~= show_line_text(g, ngs_log@, dt@));
    }
    Some(out)
}

} // verus!

verus! {

/// `s` with `x` placed after every counter whose value is not below its
/// own, as a stable sort by descending value places the last input.
pub open spec fn insert_desc(s: Seq<(Seq<char>, Counter)>, x: (Seq<char>, Counter)) -> Seq<(Seq<char>, Counter)>
    decreases s.len(),
{
    if s.len() == 0 {
        seq![x]
    } else if s.last().1.current >= x.1.current {
        s.push(x)
    } else {
        insert_desc(s.drop_last(), x).push(s.last())
    }
}

/// `s` stably sorted by descending current value.
pub open spec fn sorted_desc(s: Seq<(Seq<char>, Counter)>) -> Seq<(Seq<char>, Counter)>
    decreases s.len(),
{
    if s.len() == 0 {
        s
    } else {
        insert_desc(sorted_desc(s.drop_last()), s.last())
    }
}

proof fn lemma_insert_desc_at(s: Seq<(Seq<char>, Counter)>, x: (Seq<char>, Counter), j: int)
    requires
        0 <= j <= s.len(),
        forall|k: int| j <= k < s.len() ==> (#[trigger] s[k]).1.current < x.1.current,
        j == 0 || s[j - 1].1.current >= x.1.current,
    ensures
        insert_desc(s, x) == s.insert(j, x),
    decreases s.len(),
{
    if s.len() == j {
        if j == 0 {
            assert(s.insert(0, x) =~= seq![x]);
        } else {
            assert(s.insert(j, x) =~= s.push(x));
        }
    } else {
        let t = s.drop_last();
        lemma_insert_desc_at(t, x, j);
        assert(t.insert(j, x).push(s.last()) =~= s.insert(j, x));
    }
}

/// Sorts named counters by descending current value; equal values keep
/// their order.
pub fn sort_counts_desc(v: Vec<(String, Counter)>) -> (r: Vec<(String, Counter)>)
    ensures
        entry_views(r@) == sorted_desc(entry_views(v@)),
{
    let ghost input = entry_views(v@);
    let mut rest = v;
    let mut out: Vec<(String, Counter)> = Vec::new();
    let mut k: usize = 0;
    let n = rest.len();
    assert(input.take(0) =~= Seq::<(Seq<char>, Counter)>::empty());
    assert(entry_views(out@) =~= Seq::<(Seq<char>, Counter)>::empty());
    while rest.len() > 0
        invariant
            k + rest@.len() == n,
            n == input.len(),
            entry_views(rest@) == input.skip(k as int),
            entry_views(out@) == sorted_desc(input.take(k as int)),
        decreases rest@.len(),
    {
        let ghost before = rest@;
        assert(entry_views(before)[0] == input.skip(k as int)[0]);
        let x = rest.remove(0);
        let ghost xv = (x.0@, x.1);
        assert(xv == input[k as int]);
        assert(rest@ =~= before.skip(1));
        assert(entry_views(rest@) =~= entry_views(before).skip(1));
        assert(input.skip(k as int).skip(1) =~= input.skip(k + 1));
        let ghost cur = entry_views(out@);
        let mut j = out.len();
        while j > 0 && out[j - 1].1.current < x.1.current
            invariant
                j <= out@.len(),
                cur == entry_views(out@),
                forall|m: int| j <= m < out@.len() ==> (#[trigger] cur[m]).1.current < xv.1.current,
                xv == (x.0@, x.1),
            decreases j,
        {
            j = j - 1;
        }
        proof {
            lemma_insert_desc_at(cur, xv, j as int);
            assert(input.take(k + 1).drop_last() =~= input.take(k as int));
        }
        out.insert(j, x);
        assert(entry_views(out@) =~= cur.insert(j as int, xv));
        k = k + 1;
    }
    assert(input.take(n as int) =~= input);
    out
}

/// The widest item name, in columns.
pub open spec fn max_item_width(s: Seq<(Seq<char>, Counter)>) -> nat
    decreases s.len(),
{
    if s.len() == 0 {
        0
    } else {
        let m = max_item_width(s.drop_last());
        let w = unicode_width_of(s.last().0);
        if w > m { w } else { m }
    }
}

/// The longest count, as written with digit grouping.
pub open spec fn max_count_len(s: Seq<(Seq<char>, Counter)>) -> nat
    decreases s.len(),
{
    if s.len() == 0 {
        0
    } else {
        let m = max_count_len(s.drop_last());
        let w = grouped_decimal(s.last().1.current as nat).len();
        if w > m { w } else { m }
    }
}

/// One line of the count table: the item padded to `iw` columns, then its
/// current count right-aligned in `cw` characters.
pub open spec fn count_line(e: (Seq<char>, Counter), iw: int, cw: int) -> Seq<char> {
    let d = decimal(e.1.current as nat);
    e.0 + spaces(iw - unicode_width_of(e.0)) + " × "@ + spaces(cw - d.len()) + d
}

/// The lines of the count table, largest count first.
pub open spec fn count_table(s: Seq<(Seq<char>, Counter)>) -> Seq<Seq<char>> {
    let t = sorted_desc(s);
    t.map_values(|e: (Seq<char>, Counter)| count_line(e, max_item_width(t) as int, max_count_len(t) as int))
}

fn digit(d: u64) -> (r: char)
    requires
        d < 10,
    ensures
        r == digit_char(d as nat),
{
    if d == 0 { '0' }
    else if d == 1 { '1' }
    else if d == 2 { '2' }
    else if d == 3 { '3' }
    else if d == 4 { '4' }
    else if d == 5 { '5' }
    else if d == 6 { '6' }
    else if d == 7 { '7' }
    else if d == 8 { '8' }
    else { '9' }
}

fn push_decimal(n: u64, out: &mut Vec<char>)
    ensures
        final(out)@ == old(out)@ + decimal(n as nat),
    decreases n,
{
    if n >= 10 {
        push_decimal(n / 10, out);
    }
    out.push(digit(n % 10));
    assert(final(out)@ =~= old(out)@ + decimal(n as nat));
}

/// `n` in decimal.
pub fn decimal_string(n: u64) -> (r: String)
    ensures
        r@ == decimal(n as nat),
{
    let mut v: Vec<char> = Vec::new();
    push_decimal(n, &mut v);
    assert(v@ =~= decimal(n as nat));
    crate::text::string_of(v.as_slice())
}

/// Builds the lines of the count table from a copy of the counters.
pub fn item_count_lines(counters: Vec<(String, Counter)>) -> (r: Vec<String>)
    ensures
        r@.map_values(|s: String| s@) == count_table(entry_views(counters@)),
{
    let sorted = sort_counts_desc(counters);
    let ghost t = entry_views(sorted@);
    let mut iw: usize = 0;
    let mut cw: usize = 0;
    let mut i: usize = 0;
    assert(t.take(0) =~= Seq::<(Seq<char>, Counter)>::empty());
    while i < sorted.len()
        invariant
            i <= sorted@.len(),
            t == entry_views(sorted@),
            iw as nat == max_item_width(t.take(i as int)),
            cw as nat == max_count_len(t.take(i as int)),
        decreases sorted@.len() - i,
    {
        assert(t.take(i + 1).drop_last() =~= t.take(i as int));
        assert(t[i as int] == (sorted@[i as int].0@, sorted@[i as int].1));
        let w = text_width(sorted[i].0.as_str());
        if w > iw {
            iw = w;
        }
        let g = crate::text::format_count_ja(sorted[i].1.current);
        let gl = g.as_str().unicode_len();
        if gl > cw {
            cw = gl;
        }
        i = i + 1;
    }
    assert(t.take(i as int) =~= t);
    let mut out: Vec<String> = Vec::new();
    let mut j: usize = 0;
    while j < sorted.len()
        invariant
            j <= sorted@.len(),
            t == entry_views(sorted@),
            iw as nat == max_item_width(t),
            cw as nat == max_count_len(t),
            out@.len() == j,
            forall|q: int| 0 <= q < j ==> (#[trigger] out@[q])@ == count_line(t[q], iw as int, cw as int),
        decreases sorted@.len() - j,
    {
        let e = &sorted[j];
        assert(t[j as int] == (e.0@, e.1));
        let mut line = e.0.clone();
        let w = text_width(e.0.as_str());
        let pad = if w < iw {
            make_spaces(iw - w)
        } else {
            String::new()
        };
        line.append(pad.as_str());
        line.append(" × ");
        let d = decimal_string(e.1.current as u64);
        let dl = d.as_str().unicode_len();
        let pad2 = if dl < cw {
            make_spaces(cw - dl)
        } else {
            String::new()
        };
        line.append(pad2.as_str());
        line.append(d.as_str());
        proof {
            assert(pad@ =~= spaces(iw - unicode_width_of(e.0@)));
            assert(pad2@ =~= spaces(cw - decimal(e.1.current as nat).len()));
            assert(line@ =~= count_line(t[j as int], iw as int, cw as int));
        }
        out.push(line);
        j = j + 1;
    }
    assert(out@.map_values(|s: String| s@) =~= count_table(entry_views(counters@)));
    out
}

} // verus!

verus! {

/// Integer division rounding toward zero.
pub open spec fn trunc_div(a: int, b: int) -> int {
    if a >= 0 {
        a / b
    } else {
        -((-a) / b)
    }
}

/// Whole seconds from `b` to `n`, rounded toward zero.
pub open spec fn elapsed_seconds(b: Timestamp, n: Timestamp) -> int {
    let ds = n.secs - b.secs;
    let dn = n.nanos - b.nanos;
    let secs = if dn < 0 { ds - 1 } else { ds };
    let nanos = if dn < 0 { dn + 1_000_000_000 } else { dn };
    if secs < 0 && nanos > 0 { secs + 1 } else { secs }
}

/// `v` in decimal, zero-padded to two characters.
pub open spec fn two_digits(v: int) -> Seq<char> {
    if v < 0 {
        seq!['-'] + decimal((-v) as nat)
    } else if v < 10 {
        seq!['0'] + decimal(v as nat)
    } else {
        decimal(v as nat)
    }
}

/// The time since counting began: total hours, total minutes and total
/// seconds.
pub open spec fn elapsed_text(b: Timestamp, n: Timestamp) -> Seq<char> {
    let s = elapsed_seconds(b, n);
    two_digits(trunc_div(s, 3600)) + "°"@ + two_digits(trunc_div(s, 60)) + "'"@ + two_digits(s) + "\""@
}

/// The first line of the count table.
pub open spec fn count_header_text(bt: Seq<char>, nt: Seq<char>, b: Timestamp, n: Timestamp) -> Seq<char> {
    "=== 取得アイテム集計: "@ + bt + " -> "@ + nt + " ( "@ + elapsed_text(b, n) + " ) ==="@
}

fn push_decimal_wide(n: u128, out: &mut Vec<char>)
    ensures
        final(out)@ == old(out)@ + decimal(n as nat),
    decreases n,
{
    if n >= 10 {
        push_decimal_wide(n / 10, out);
    }
    out.push(digit((n % 10) as u64));
    assert(final(out)@ =~= old(out)@ + decimal(n as nat));
}

fn two_digits_string(v: i128) -> (r: String)
    requires
        -0x1_0000_0000_0000_0000_0000 < v < 0x1_0000_0000_0000_0000_0000,
    ensures
        r@ == two_digits(v as int),
{
    let mut out: Vec<char> = Vec::new();
    if v < 0 {
        out.push('-');
        push_decimal_wide((-v) as u128, &mut out);
    } else {
        if v < 10 {
            out.push('0');
        }
        push_decimal_wide(v as u128, &mut out);
    }
    assert(out@ =~= two_digits(v as int));
    crate::text::string_of(out.as_slice())
}

fn trunc_div_exec(a: i128, b: i128) -> (r: i128)
    requires
        b > 0,
        -0x1_0000_0000_0000_0000_0000 < a < 0x1_0000_0000_0000_0000_0000,
    ensures
        r == trunc_div(a as int, b as int),
        -0x1_0000_0000_0000_0000_0000 < r < 0x1_0000_0000_0000_0000_0000,
{
    if a >= 0 {
        a / b
    } else {
        -((-a) / b)
    }
}

/// The first line of the count table, with both times written as the
/// configuration asks; `None` when one cannot be written.
pub fn item_count_header(conf: &Conf, begin: &Timestamp, now: &Timestamp) -> (r: Option<String>)
    ensures
        match (datetime_text(conf.global, *begin), datetime_text(conf.global, *now)) {
            (Some(bt), Some(nt)) => r matches Some(x) && x@ == count_header_text(bt, nt, *begin, *now),
            _ => r is None,
        },
{
    let bt = match format_datetime(conf, begin) {
        Some(x) => x,
        None => return None,
    };
    let nt = match format_datetime(conf, now) {
        Some(x) => x,
        None => return None,
    };
    let ds: i128 = now.secs as i128 - begin.secs as i128;
    let dn: i128 = now.nanos as i128 - begin.nanos as i128;
    let secs: i128 = if dn < 0 { ds - 1 } else { ds };
    let nanos: i128 = if dn < 0 { dn + 1_000_000_000 } else { dn };
    let s: i128 = if secs < 0 && nanos > 0 { secs + 1 } else { secs };
    assert(s == elapsed_seconds(*begin, *now));
    let mut out = String::from_str("=== 取得アイテム集計: ");
    out.append(bt.as_str());
    out.append(" -> ");
    out.append(nt.as_str());
    out.append(" ( ");
    let h = two_digits_string(trunc_div_exec(s, 3600));
    let m = two_digits_string(trunc_div_exec(s, 60));
    let sec = two_digits_string(s);
    out.append(h.as_str());
    out.append("°");
    out.append(m.as_str());
    out.append("'");
    out.append(sec.as_str());
    out.append("\"");
    out.append(" ) ===");
    assert(out@ =~= count_header_text(bt@, nt@, *begin, *now));
    Some(out)
}

} // verus!
