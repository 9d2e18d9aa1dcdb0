//! Matching an entry against the rules and choosing the actions to fire.
use vstd::prelude::*;

use crate::conf::{Action, ActionType, If, ItemCount, Target};
use crate::counter::{entry_views, Counter};
use crate::error::NgsLogActionError;
use crate::ngs_log::{NgsLog, NgsLogChannel, NgsLogView};
use crate::parse::string_views;
use crate::text::chars_of;

verus! {

/// Whether the regex crate accepts `pattern`.
pub uninterp spec fn regex_compiles(pattern: Seq<char>) -> bool;

/// Whether the regex crate finds a match of `pattern` in `text`.
pub uninterp spec fn regex_matches(pattern: Seq<char>, text: Seq<char>) -> bool;

/// Relies on `regex::Regex::new`, which fails exactly on the patterns it
/// does not accept, and on `Regex::is_match` for the compiled pattern.
#[verifier::external_body]
fn regex_is_match(pattern: &str, text: &str) -> (r: Option<bool>)
    ensures
        r is Some <==> regex_compiles(pattern@),
        r matches Some(b) ==> b == regex_matches(pattern@, text@),
{
    match regex::Regex::new(pattern) {
        Ok(re) => Some(re.is_match(text)),
        Err(_) => None,
    }
}

/// `k` occurs in `s`.
pub open spec fn contains_text(s: Seq<char>, k: Seq<char>) -> bool {
    exists|i: int| 0 <= i <= s.len() - k.len() && #[trigger] s.subrange(i, i + k.len()) == k
}

/// Some keyword of `ks` occurs in `s`.
pub open spec fn any_contained(s: Seq<char>, ks: Seq<Seq<char>>) -> bool {
    exists|j: int| 0 <= j < ks.len() && contains_text(s, #[trigger] ks[j])
}

/// Searches `s` for `k`.
pub fn find_text(s: &Vec<char>, k: &Vec<char>) -> (r: bool)
    ensures
        r == contains_text(s@, k@),
{
    if k.len() > s.len() {
        return false;
    }
    let m = k.len();
    let n = s.len();
    let mut i: usize = 0;
    while i <= n - m
        invariant
            n == s@.len(),
            m == k@.len(),
            m <= s@.len(),
            i <= s@.len() - m + 1,
            forall|j: int| 0 <= j < i ==> #[trigger] s@.subrange(j, j + m) != k@,
        decreases s@.len() - m + 1 - i,
    {
        let mut t: usize = 0;
        let mut same = true;
        while t < m
            invariant
                n == s@.len(),
                m == k@.len(),
                i + m <= s@.len(),
                t <= m,
                same <==> (forall|q: int| 0 <= q < t ==> s@[i + q] == k@[q]),
            decreases m - t,
        {
            if s[i + t] != k[t] {
                same = false;
            }
            t = t + 1;
        }
        if same {
            assert(s@.subrange(i as int, i + m) =~= k@);
            return true;
        }
        assert(s@.subrange(i as int, i + m)[0] == s@[i as int]);
        assert(s@.subrange(i as int, i + m) != k@) by {
            let q = choose|q: int| 0 <= q < m && s@[i + q] != k@[q];
            assert(s@.subrange(i as int, i + m)[q] == s@[i + q]);
        }
        i = i + 1;
    }
    false
}

/// Whether some keyword of `ks` occurs in `text`.
pub fn any_keyword(text: &Vec<char>, ks: &Vec<String>) -> (r: bool)
    ensures
        r == any_contained(text@, string_views(ks@)),
{
    let mut j: usize = 0;
    while j < ks.len()
        invariant
            j <= ks@.len(),
            forall|q: int| 0 <= q < j ==> !contains_text(text@, #[trigger] string_views(ks@)[q]),
        decreases ks@.len() - j,
    {
        let kc = chars_of(ks[j].as_str());
        if find_text(text, &kc) {
            assert(string_views(ks@)[j as int] == kc@);
            return true;
        }
        j = j + 1;
    }
    false
}

/// Whether `name` is one of `ns`.
pub fn has_name(ns: &Vec<String>, name: &String) -> (r: bool)
    ensures
        r == string_views(ns@).contains(name@),
{
    let mut j: usize = 0;
    while j < ns.len()
        invariant
            j <= ns@.len(),
            forall|q: int| 0 <= q < j ==> #[trigger] string_views(ns@)[q] != name@,
        decreases ns@.len() - j,
    {
        if ns[j] == *name {
            assert(string_views(ns@)[j as int] == name@);
            return true;
        }
        j = j + 1;
    }
    false
}

/// What an optional pattern says of `text`: no pattern passes, one that
/// does not compile is an error, otherwise a match passes when `want`
/// is true and fails when it is false.
pub open spec fn pattern_check(p: Option<String>, text: Seq<char>, want: bool) -> Option<bool> {
    match p {
        None => Some(true),
        Some(re) => if !regex_compiles(re@) {
            None
        } else {
            Some(regex_matches(re@, text) == want)
        },
    }
}

fn check_pattern(p: &Option<String>, text: &String, want: bool) -> (r: Option<bool>)
    ensures
        r == pattern_check(*p, text@, want),
{
    match p {
        None => Some(true),
        Some(re) => match regex_is_match(re.as_str(), text.as_str()) {
            None => None,
            Some(m) => Some(m == want),
        },
    }
}

pub open spec fn target_ok(t: Option<Target>, log: NgsLogView) -> bool {
    match t {
        None => true,
        Some(t) => match log {
            NgsLogView::Chat(_) => t == Target::Chat,
            NgsLogView::Item(_) => t == Target::Item,
        },
    }
}

/// Item entries have no channel, so a channel filter lets them through.
pub open spec fn channel_ok(cs: Option<Vec<NgsLogChannel>>, log: NgsLogView) -> bool {
    match cs {
        None => true,
        Some(cs) => match log {
            NgsLogView::Chat(l) => cs@.contains(l.channel),
            NgsLogView::Item(_) => true,
        },
    }
}

pub open spec fn names_ok(ns: Option<Vec<String>>, name: Seq<char>) -> bool {
    match ns {
        None => true,
        Some(ns) => string_views(ns@).contains(name),
    }
}

pub open spec fn keywords_ok(ks: Option<Vec<String>>, text: Seq<char>) -> bool {
    match ks {
        None => true,
        Some(ks) => any_contained(text, string_views(ks@)),
    }
}

pub open spec fn ignore_names_ok(ns: Option<Vec<String>>, name: Seq<char>) -> bool {
    match ns {
        None => true,
        Some(ns) => !string_views(ns@).contains(name),
    }
}

pub open spec fn ignore_keywords_ok(ks: Option<Vec<String>>, text: Seq<char>) -> bool {
    match ks {
        None => true,
        Some(ks) => !any_contained(text, string_views(ks@)),
    }
}

/// Whether an entry passes every filter of a rule, in the order target,
/// channels, names, keywords, regex, ignored names, ignored keywords,
/// ignored regex; `None` when a pattern reached does not compile.
pub open spec fn filters_pass(rule: If, log: NgsLogView) -> Option<bool> {
    let text = log.body_or_item();
    if !(target_ok(rule.target, log) && channel_ok(rule.channels, log) && names_ok(rule.names, log.name())
        && keywords_ok(rule.keywords, text)) {
        Some(false)
    } else {
        match pattern_check(rule.regex, text, true) {
            None => None,
            Some(false) => Some(false),
            Some(true) => if !(ignore_names_ok(rule.ignore_names, log.name()) && ignore_keywords_ok(
                rule.ignore_keywords,
                text,
            )) {
                Some(false)
            } else {
                pattern_check(rule.ignore_regex, text, false)
            },
        }
    }
}

fn channel_listed(cs: &Vec<NgsLogChannel>, c: NgsLogChannel) -> (r: bool)
    ensures
        r == cs@.contains(c),
{
    let mut j: usize = 0;
    while j < cs.len()
        invariant
            j <= cs@.len(),
            forall|q: int| 0 <= q < j ==> cs@[q] != c,
        decreases cs@.len() - j,
    {
        if cs[j] == c {
            return true;
        }
        j = j + 1;
    }
    false
}

/// Evaluates the filters of `rule` on `log`.
pub fn check_filters(rule: &If, log: &NgsLog) -> (r: Option<bool>)
    ensures
        r == filters_pass(*rule, log@),
{
    let name = log.get_name();
    let text = log.get_body_or_item();
    let tc = chars_of(text.as_str());
    if let Some(t) = rule.target {
        let ok = match log {
            NgsLog::ChatLog(_) => t == Target::Chat,
            NgsLog::ItemLog(_) => t == Target::Item,
        };
        if !ok {
            return Some(false);
        }
    }
    if let Some(cs) = &rule.channels {
        if let NgsLog::ChatLog(l) = log {
            if !channel_listed(cs, l.channel) {
                return Some(false);
            }
        }
    }
    if let Some(ns) = &rule.names {
        if !has_name(ns, name) {
            return Some(false);
        }
    }
    if let Some(ks) = &rule.keywords {
        if !any_keyword(&tc, ks) {
            return Some(false);
        }
    }
    match check_pattern(&rule.regex, text, true) {
        None => return None,
        Some(false) => return Some(false),
        Some(true) => {},
    }
    if let Some(ns) = &rule.ignore_names {
        if has_name(ns, name) {
            return Some(false);
        }
    }
    if let Some(ks) = &rule.ignore_keywords {
        if any_keyword(&tc, ks) {
            return Some(false);
        }
    }
    check_pattern(&rule.ignore_regex, text, false)
}

} // verus!

verus! {

/// Whether a count trigger fires for an item: its counter passed a multiple
/// of `every` (a zero divisor never fires) and the name passes the keyword
/// and pattern filters; `None` when the pattern does not compile.
pub open spec fn count_trigger(p: ItemCount, item: Seq<char>, c: Counter) -> Option<bool> {
    if (p.every matches Some(e) && (e == 0 || c.prev / e >= c.current / e)) {
        Some(false)
    } else if !keywords_ok(p.keywords, item) {
        Some(false)
    } else {
        pattern_check(p.regex, item, true)
    }
}

/// The first decisive answer of the triggers `ps` for one item.
pub open spec fn item_outcome(ps: Seq<ItemCount>, item: Seq<char>, c: Counter) -> Option<bool>
    decreases ps.len(),
{
    if ps.len() == 0 {
        Some(false)
    } else {
        match count_trigger(ps[0], item, c) {
            None => None,
            Some(true) => Some(true),
            Some(false) => item_outcome(ps.skip(1), item, c),
        }
    }
}

/// Whether some trigger fires for some counter, going through the
/// counters in order and each counter's triggers in order: the first
/// firing decides, and a pattern error reached before it is an error.
pub open spec fn counts_outcome(ps: Seq<ItemCount>, counters: Seq<(Seq<char>, Counter)>) -> Option<bool>
    decreases counters.len(),
{
    if counters.len() == 0 {
        Some(false)
    } else {
        match item_outcome(ps, counters[0].0, counters[0].1) {
            None => None,
            Some(true) => Some(true),
            Some(false) => counts_outcome(ps, counters.skip(1)),
        }
    }
}

/// Whether a rule fires for an entry, given the counters at that moment:
/// its filters pass and, when it has count triggers, one of them fires.
/// A rule's actions run once however many triggers fire, since each kind
/// of action runs at most once per entry.
pub open spec fn rule_outcome(rule: If, log: NgsLogView, counters: Seq<(Seq<char>, Counter)>) -> Option<bool> {
    match filters_pass(rule, log) {
        None => None,
        Some(false) => Some(false),
        Some(true) => match rule.item_counts {
            None => Some(true),
            Some(ps) => counts_outcome(ps@, counters),
        },
    }
}

fn check_trigger(p: &ItemCount, item: &String, c: Counter) -> (r: Option<bool>)
    ensures
        r == count_trigger(*p, item@, c),
{
    if let Some(e) = p.every {
        if e == 0 || !c.crossed(e) {
            return Some(false);
        }
    }
    if let Some(ks) = &p.keywords {
        let ic = chars_of(item.as_str());
        if !any_keyword(&ic, ks) {
            return Some(false);
        }
    }
    check_pattern(&p.regex, item, true)
}

fn check_item(ps: &Vec<ItemCount>, item: &String, c: Counter) -> (r: Option<bool>)
    ensures
        r == item_outcome(ps@, item@, c),
{
    let mut j: usize = 0;
    assert(ps@.skip(0) =~= ps@);
    while j < ps.len()
        invariant
            j <= ps@.len(),
            item_outcome(ps@, item@, c) == item_outcome(ps@.skip(j as int), item@, c),
        decreases ps@.len() - j,
    {
        let ghost rest = ps@.skip(j as int);
        assert(rest[0] == ps@[j as int]);
        assert(rest.skip(1) =~= ps@.skip(j + 1));
        match check_trigger(&ps[j], item, c) {
            None => return None,
            Some(true) => return Some(true),
            Some(false) => {},
        }
        j = j + 1;
    }
    assert(ps@.skip(j as int) =~= Seq::<ItemCount>::empty());
    Some(false)
}

fn check_counts(ps: &Vec<ItemCount>, counters: &Vec<(String, Counter)>) -> (r: Option<bool>)
    ensures
        r == counts_outcome(ps@, entry_views(counters@)),
{
    let ghost all = entry_views(counters@);
    let mut i: usize = 0;
    assert(all.skip(0) =~= all);
    while i < counters.len()
        invariant
            i <= counters@.len(),
            all == entry_views(counters@),
            counts_outcome(ps@, all) == counts_outcome(ps@, all.skip(i as int)),
        decreases counters@.len() - i,
    {
        let ghost rest = all.skip(i as int);
        assert(rest[0] == (counters@[i as int].0@, counters@[i as int].1));
        assert(rest.skip(1) =~= all.skip(i + 1));
        match check_item(ps, &counters[i].0, counters[i].1) {
            None => return None,
            Some(true) => return Some(true),
            Some(false) => {},
        }
        i = i + 1;
    }
    assert(all.skip(i as int) =~= Seq::<(Seq<char>, Counter)>::empty());
    Some(false)
}

/// Decides whether `rule` fires for `log`, given a copy of the counters.
pub fn rule_fires(rule: &If, log: &NgsLog, counters: &Vec<(String, Counter)>) -> (r: Result<bool, NgsLogActionError>)
    ensures
        match rule_outcome(*rule, log@, entry_views(counters@)) {
            None => r == Err::<bool, NgsLogActionError>(NgsLogActionError::InvalidRegex),
            Some(b) => r == Ok::<bool, NgsLogActionError>(b),
        },
{
    match check_filters(rule, log) {
        None => Err(NgsLogActionError::InvalidRegex),
        Some(false) => Ok(false),
        Some(true) => match &rule.item_counts {
            None => Ok(true),
            Some(ps) => match check_counts(ps, counters) {
                None => Err(NgsLogActionError::InvalidRegex),
                Some(b) => Ok(b),
            },
        },
    }
}

/// The bundle asks for actions of kind `k`.
pub open spec fn requested(a: Action, k: ActionType) -> bool {
    match k {
        ActionType::Show => a.show == Some(true),
        ActionType::Sound => a.sound is Some,
        ActionType::Command => a.command is Some,
        ActionType::Get => a.get is Some,
        ActionType::Post => a.post is Some,
        ActionType::Count => a.count == Some(true),
        ActionType::ShowItemCounts => a.show_item_counts == Some(true),
        ActionType::ResetItemCounts => a.reset_item_counts == Some(true),
    }
}

pub open spec fn pick(a: Action, finished: Seq<ActionType>, k: ActionType) -> Seq<ActionType> {
    if requested(a, k) && !finished.contains(k) {
        seq![k]
    } else {
        Seq::empty()
    }
}

/// The kinds that a bundle launches once `finished` have run for the same
/// entry: each kind it asks for that has not run yet, in the order show,
/// sound, command, get, post, count, show counts, reset counts.
pub open spec fn selected(a: Action, finished: Seq<ActionType>) -> Seq<ActionType> {
    pick(a, finished, ActionType::Show) + pick(a, finished, ActionType::Sound) + pick(a, finished, ActionType::Command)
        + pick(a, finished, ActionType::Get) + pick(a, finished, ActionType::Post) + pick(
        a,
        finished,
        ActionType::Count,
    ) + pick(a, finished, ActionType::ShowItemCounts) + pick(a, finished, ActionType::ResetItemCounts)
}

fn listed(v: &Vec<ActionType>, k: ActionType) -> (r: bool)
    ensures
        r == v@.contains(k),
{
    let mut j: usize = 0;
    while j < v.len()
        invariant
            j <= v@.len(),
            forall|q: int| 0 <= q < j ==> v@[q] != k,
        decreases v@.len() - j,
    {
        if v[j] == k {
            return true;
        }
        j = j + 1;
    }
    false
}

fn pick_into(
    wanted: bool,
    k: ActionType,
    finished: &Vec<ActionType>,
    out: &mut Vec<ActionType>,
)
    ensures
        final(out)@ == old(out)@ + (if wanted && !finished@.contains(k) {
            seq![k]
        } else {
            Seq::<ActionType>::empty()
        }),
{
    if wanted && !listed(finished, k) {
        out.push(k);
        assert(final(out)@ =~= old(out)@ + seq![k]);
    } else {
        assert(old(out)@ + Seq::<ActionType>::empty() =~= old(out)@);
    }
}

/// Chooses the actions of `action` that have not run yet for this entry,
/// and records them as run.
pub fn do_action(action: &Action, finished: &mut Vec<ActionType>) -> (r: Vec<ActionType>)
    ensures
        r@ == selected(*action, old(finished)@),
        final(finished)@ == old(finished)@ + r@,
{
    let mut out: Vec<ActionType> = Vec::new();
    pick_into(action.show == Some(true), ActionType::Show, finished, &mut out);
    pick_into(action.sound.is_some(), ActionType::Sound, finished, &mut out);
    pick_into(action.command.is_some(), ActionType::Command, finished, &mut out);
    pick_into(action.get.is_some(), ActionType::Get, finished, &mut out);
    pick_into(action.post.is_some(), ActionType::Post, finished, &mut out);
    pick_into(action.count == Some(true), ActionType::Count, finished, &mut out);
    pick_into(action.show_item_counts == Some(true), ActionType::ShowItemCounts, finished, &mut out);
    pick_into(action.reset_item_counts == Some(true), ActionType::ResetItemCounts, finished, &mut out);
    assert(out@ =~= selected(*action, finished@));
    let mut i: usize = 0;
    let ghost start = finished@;
    while i < out.len()
        invariant
            i <= out@.len(),
            finished@ == start + out@.take(i as int),
        decreases out@.len() - i,
    {
        finished.push(out[i]);
        assert(finished@ =~= start + out@.take(i + 1));
        i = i + 1;
    }
    assert(out@.take(out@.len() as int) =~= out@);
    out
}

/// Evaluates one rule for an entry and chooses the actions it launches;
/// `finished` holds the kinds already run for this entry and receives the
/// new ones. A pattern that does not compile aborts this rule only.
pub fn apply_log_action(
    rule: &If,
    ngs_log: &NgsLog,
    counters: &Vec<(String, Counter)>,
    finished: &mut Vec<ActionType>,
) -> (r: Result<Vec<ActionType>, NgsLogActionError>)
    ensures
        match rule_outcome(*rule, ngs_log@, entry_views(counters@)) {
            None => r == Err::<Vec<ActionType>, NgsLogActionError>(NgsLogActionError::InvalidRegex)
                && final(finished)@ == old(finished)@,
            Some(false) => r is Ok && r->Ok_0@.len() == 0 && final(finished)@ == old(finished)@,
            Some(true) => match rule.action {
                None => r is Ok && r->Ok_0@.len() == 0 && final(finished)@ == old(finished)@,
                Some(a) => r is Ok && r->Ok_0@ == selected(a, old(finished)@)
                    && final(finished)@ == old(finished)@ + r->Ok_0@,
            },
        },
{
    match rule_fires(rule, ngs_log, counters) {
        Err(e) => Err(e),
        Ok(false) => Ok(Vec::new()),
        Ok(true) => match &rule.action {
            None => Ok(Vec::new()),
            Some(a) => Ok(do_action(a, finished)),
        },
    }
}

proof fn lemma_concat_contains(x: Seq<ActionType>, y: Seq<ActionType>, k: ActionType)
    ensures
        (x + y).contains(k) <==> (x.contains(k) || y.contains(k)),
{
    if x.contains(k) {
        let i = choose|i: int| 0 <= i < x.len() && x[i] == k;
        assert((x + y)[i] == k);
    }
    if y.contains(k) {
        let i = choose|i: int| 0 <= i < y.len() && y[i] == k;
        assert((x + y)[x.len() + i] == k);
    }
    if (x + y).contains(k) {
        let i = choose|i: int| 0 <= i < (x + y).len() && (x + y)[i] == k;
        if i < x.len() {
            assert(x[i] == k);
        } else {
            assert(y[i - x.len()] == k);
        }
    }
}

proof fn lemma_selected_contains(a: Action, f: Seq<ActionType>, k: ActionType)
    ensures
        selected(a, f).contains(k) <==> (requested(a, k) && !f.contains(k)),
{
    let show = pick(a, f, ActionType::Show);
    let sound = pick(a, f, ActionType::Sound);
    let cmd = pick(a, f, ActionType::Command);
    let get = pick(a, f, ActionType::Get);
    let post = pick(a, f, ActionType::Post);
    let cnt = pick(a, f, ActionType::Count);
    let shown = pick(a, f, ActionType::ShowItemCounts);
    let reset = pick(a, f, ActionType::ResetItemCounts);
    lemma_concat_contains(show, sound, k);
    lemma_concat_contains(show + sound, cmd, k);
    lemma_concat_contains(show + sound + cmd, get, k);
    lemma_concat_contains(show + sound + cmd + get, post, k);
    lemma_concat_contains(show + sound + cmd + get + post, cnt, k);
    lemma_concat_contains(show + sound + cmd + get + post + cnt, shown, k);
    lemma_concat_contains(show + sound + cmd + get + post + cnt + shown, reset, k);
    assert(pick(a, f, k).contains(k) <==> (requested(a, k) && !f.contains(k))) by {
        if requested(a, k) && !f.contains(k) {
            assert(pick(a, f, k)[0] == k);
        }
    }
}

/// Within one entry each kind of action runs at most once: after a bundle
/// has launched a kind, no later bundle launches it again; and a bundle
/// launches every kind it asks for that has not run yet.
pub proof fn lemma_each_kind_once(a1: Action, a2: Action, finished: Seq<ActionType>, k: ActionType)
    ensures
        selected(a1, finished).contains(k) ==> !selected(a2, finished + selected(a1, finished)).contains(k),
        requested(a1, k) && !finished.contains(k) ==> selected(a1, finished).contains(k),
{
    let s1 = selected(a1, finished);
    lemma_selected_contains(a1, finished, k);
    lemma_concat_contains(finished, s1, k);
    lemma_selected_contains(a2, finished + s1, k);
}

} // verus!
