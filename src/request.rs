//! The URL, headers and body that the HTTP actions send for an entry.
use vstd::prelude::*;
use vstd::string::*;

use crate::display::{display_text, display_time};
use crate::ngs_log::{channel_name, NgsLog, NgsLogView, Timestamp};
use crate::text::{chars_of, digit_char, string_of};
use vstd::utf8::encode_utf8;

verus! {

/// ASCII letters, digits and `-_.~` stay as they are in a URL.
pub open spec fn url_safe(b: u8) -> bool {
    (48 <= b <= 57) || (65 <= b <= 90) || (97 <= b <= 122) || b == 45 || b == 46 || b == 95 || b == 126
}

/// An upper-case hexadecimal digit.
pub open spec fn hex_digit(d: u8) -> char {
    if d < 10 {
        digit_char(d as nat)
    } else if d == 10 {
        'A'
    } else if d == 11 {
        'B'
    } else if d == 12 {
        'C'
    } else if d == 13 {
        'D'
    } else if d == 14 {
        'E'
    } else {
        'F'
    }
}

/// Each byte that is not URL-safe written as `%` and two upper-case hex digits.
pub open spec fn percent_encoded(b: Seq<u8>) -> Seq<char>
    decreases b.len(),
{
    if b.len() == 0 {
        Seq::empty()
    } else {
        let head = if url_safe(b[0]) {
            seq![b[0] as char]
        } else {
            seq!['%', hex_digit(b[0] / 16), hex_digit(b[0] % 16)]
        };
        head + percent_encoded(b.skip(1))
    }
}

/// A text percent-encoded byte by byte in UTF-8.
pub open spec fn url_encoded(s: Seq<char>) -> Seq<char> {
    percent_encoded(encode_utf8(s))
}

/// What chrono's `Debug` writes for a timestamp in its own offset, or
/// `None` when the timestamp is outside chrono's range.
pub uninterp spec fn debug_text(t: Timestamp) -> Option<Seq<char>>;

/// Relies on `urlencoding::encode`: the UTF-8 bytes of the text, each but
/// ASCII letters, digits and `-_.~` written as `%` and two upper-case hex
/// digits.
#[verifier::external_body]
fn url_encode(s: &str) -> (r: String)
    ensures
        r@ == url_encoded(s@),
{
    urlencoding::encode(s).into_owned()
}

/// Relies on chrono's `Debug` for `DateTime<FixedOffset>`; the timestamp
/// is rebuilt with `DateTime::from_timestamp` and `FixedOffset::east_opt`.
#[verifier::external_body]
fn debug_time(t: Timestamp) -> (r: Option<String>)
    ensures
        r matches Some(s) ==> debug_text(t) == Some(s@),
        r is None ==> debug_text(t) is None,
{
    let off = chrono::FixedOffset::east_opt(t.offset)?;
    let d = chrono::DateTime::from_timestamp(t.secs, t.nanos)?.with_timezone(&off);
    Some(format!("{:?}", d))
}

/// `s` with every occurrence of `pat`, left to right without overlap,
/// replaced by `rep`.
pub open spec fn replaced(s: Seq<char>, pat: Seq<char>, rep: Seq<char>) -> Seq<char>
    decreases s.len(),
{
    if pat.len() == 0 || s.len() < pat.len() {
        s
    } else if s.take(pat.len() as int) == pat {
        rep + replaced(s.skip(pat.len() as int), pat, rep)
    } else {
        seq![s[0]] + replaced(s.skip(1), pat, rep)
    }
}

/// Replaces every occurrence of the non-empty `pat` in `s` by `rep`.
pub fn replace_all(s: &str, pat: &str, rep: &str) -> (r: String)
    ensures
        r@ == replaced(s@, pat@, rep@),
{
    let sc = chars_of(s);
    let pc = chars_of(pat);
    let rc = chars_of(rep);
    let n = sc.len();
    let m = pc.len();
    let mut out: Vec<char> = Vec::new();
    let mut i: usize = 0;
    assert(sc@.skip(0) =~= sc@);
    assert(out@ + replaced(sc@, pc@, rc@) =~= replaced(sc@, pc@, rc@));
    while i < n
        invariant
            n == sc@.len(),
            m == pc@.len(),
            sc@ == s@,
            pc@ == pat@,
            rc@ == rep@,
            i <= n,
            out@ + replaced(sc@.skip(i as int), pc@, rc@) == replaced(sc@, pc@, rc@),
        decreases n - i,
    {
        let ghost rest = sc@.skip(i as int);
        let mut hit = m > 0 && m <= n - i;
        if hit {
            let mut t: usize = 0;
            while t < m
                invariant
                    n == sc@.len(),
                    m == pc@.len(),
                    i + m <= n,
                    t <= m,
                    hit <==> (forall|q: int| 0 <= q < t ==> sc@[i + q] == pc@[q]),
                decreases m - t,
            {
                if sc[i + t] != pc[t] {
                    hit = false;
                }
                t = t + 1;
            }
        }
        if hit {
            assert(rest.take(m as int) =~= pc@);
            assert(rest.skip(m as int) =~= sc@.skip(i + m));
            let mut k: usize = 0;
            let ghost before = out@;
            while k < rc.len()
                invariant
                    k <= rc@.len(),
                    out@ == before + rc@.take(k as int),
                decreases rc@.len() - k,
            {
                out.push(rc[k]);
                k = k + 1;
                assert(out@ =~= before + rc@.take(k as int));
            }
            assert(rc@.take(rc@.len() as int) =~= rc@);
            assert(out@ + replaced(sc@.skip(i + m), pc@, rc@) =~= replaced(sc@, pc@, rc@));
            i = i + m;
        } else {
            if m > 0 && m <= n - i {
                assert(rest.take(m as int) != pc@) by {
                    let q = choose|q: int| 0 <= q < m && sc@[i + q] != pc@[q];
                    assert(rest.take(m as int)[q] == sc@[i + q]);
                }
            }
            assert(rest.skip(1) =~= sc@.skip(i + 1));
            let ghost before = out@;
            out.push(sc[i]);
            assert(replaced(rest, pc@, rc@) == seq![sc@[i as int]] + replaced(sc@.skip(i + 1), pc@, rc@)) by {
                if m == 0 || m > n - i {
                    assert(replaced(sc@.skip(i + 1), pc@, rc@) == sc@.skip(i + 1));
                    assert(rest =~= seq![sc@[i as int]] + sc@.skip(i + 1));
                } else {
                    assert(rest[0] == sc@[i as int]);
                    assert(rest.take(m as int) != pc@);
                }
            }
            assert(out@ + replaced(sc@.skip(i + 1), pc@, rc@) =~= before + replaced(rest, pc@, rc@));
            i = i + 1;
        }
    }
    assert(sc@.skip(n as int) =~= Seq::<char>::empty());
    assert(out@ + Seq::<char>::empty() =~= out@);
    string_of(out.as_slice())
}

} // verus!

verus! {

/// The channel as the HTTP actions send it: its name, or `ITEM` for an
/// item entry, in double quotes.
pub open spec fn quoted_channel(log: NgsLogView) -> Seq<char> {
    let c = match log {
        NgsLogView::Chat(l) => channel_name(l.channel),
        NgsLogView::Item(_) => "ITEM"@,
    };
    seq!['"'] + c + seq!['"']
}

fn quoted_channel_string(log: &NgsLog) -> (r: String)
    ensures
        r@ == quoted_channel(log@),
{
    let mut s = String::from_str("\"");
    match log {
        NgsLog::ChatLog(_) => {
            let c = log.get_channel_or_category_string();
            s.append(c.as_str());
        },
        NgsLog::ItemLog(_) => {
            s.append("ITEM");
        },
    }
    s.append("\"");
    proof {
        reveal_strlit("\"");
    }
    assert(s@ =~= quoted_channel(log@));
    s
}

/// The URL of the GET action: `{body}`, `{name}`, `{channel}` and
/// `{datetime}` replaced, in that order, by the URL-encoded body or item
/// with count, name, quoted channel and timestamp.
pub open spec fn get_url_text(template: Seq<char>, log: NgsLogView, dt: Seq<char>) -> Seq<char> {
    replaced(
        replaced(
            replaced(
                replaced(template, "{body}"@, url_encoded(log.body_or_item_with_count())),
                "{name}"@,
                url_encoded(log.name()),
            ),
            "{channel}"@,
            url_encoded(quoted_channel(log)),
        ),
        "{datetime}"@,
        url_encoded(dt),
    )
}

/// Builds the URL that the GET action requests; `None` when the timestamp
/// cannot be written.
pub fn get_url(url: &str, ngs_log: &NgsLog) -> (r: Option<String>)
    ensures
        match debug_text(ngs_log@.datetime()) {
            Some(dt) => r matches Some(x) && x@ == get_url_text(url@, ngs_log@, dt),
            None => r is None,
        },
{
    let dt = match debug_time(*ngs_log.get_datetime()) {
        Some(d) => d,
        None => return None,
    };
    let body = url_encode(ngs_log.get_body_or_item_with_count().as_str());
    let name = url_encode(ngs_log.get_name().as_str());
    let channel = url_encode(quoted_channel_string(ngs_log).as_str());
    let datetime = url_encode(dt.as_str());
    let u1 = replace_all(url, "{body}", body.as_str());
    let u2 = replace_all(u1.as_str(), "{name}", name.as_str());
    let u3 = replace_all(u2.as_str(), "{channel}", channel.as_str());
    Some(replace_all(u3.as_str(), "{datetime}", datetime.as_str()))
}

/// The headers and body that the POST action sends.
pub struct PostRequest {
    pub name: String,
    pub channel: String,
    pub datetime: String,
    pub body: String,
}

/// Builds what the POST action sends: the URL-encoded name, the quoted
/// channel, the timestamp text and the body or item with count; `None`
/// when the timestamp cannot be written.
pub fn post_request(ngs_log: &NgsLog) -> (r: Option<PostRequest>)
    ensures
        match display_text(ngs_log@.datetime()) {
            Some(dt) => r matches Some(p) && p.name@ == url_encoded(ngs_log@.name())
                && p.channel@ == quoted_channel(ngs_log@) && p.datetime@ == dt
                && p.body@ == ngs_log@.body_or_item_with_count(),
            None => r is None,
        },
{
    let datetime = match display_time(*ngs_log.get_datetime()) {
        Some(d) => d,
        None => return None,
    };
    Some(
        PostRequest {
            name: url_encode(ngs_log.get_name().as_str()),
            channel: quoted_channel_string(ngs_log),
            datetime,
            body: ngs_log.get_body_or_item_with_count(),
        },
    )
}

} // verus!
