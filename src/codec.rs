//! Doubled-quote escaping used by the chat log's multi-line bodies.
use vstd::prelude::*;

use crate::text::{chars_of, string_of};

verus! {

/// The quote character that the log doubles inside quoted bodies.
pub open spec fn quote() -> char {
    '"'
}

/// The sentinel that stands for an escaped quote between the two halves of
/// the unescaping of a continuation line.
pub open spec fn sentinel() -> char {
    '\t'
}

/// `s` with each adjacent pair of quotes, taken left to right without
/// overlap, replaced by `rep`.
pub open spec fn replace_quote_pairs(s: Seq<char>, rep: char) -> Seq<char>
    decreases s.len(),
{
    if s.len() < 2 {
        s
    } else if s[0] == quote() && s[1] == quote() {
        seq![rep] + replace_quote_pairs(s.skip(2), rep)
    } else {
        seq![s[0]] + replace_quote_pairs(s.skip(1), rep)
    }
}

/// Each doubled quote collapsed to one quote.
pub open spec fn unescaped(s: Seq<char>) -> Seq<char> {
    replace_quote_pairs(s, quote())
}

/// Each doubled quote replaced by the sentinel.
pub open spec fn pre_unescaped(s: Seq<char>) -> Seq<char> {
    replace_quote_pairs(s, sentinel())
}

/// Each sentinel turned back into a quote.
pub open spec fn finish_unescaped(s: Seq<char>) -> Seq<char> {
    s.map_values(|c: char| if c == sentinel() { quote() } else { c })
}

fn replace_pairs(s: &str, rep: char) -> (r: String)
    ensures
        r@ == replace_quote_pairs(s@, rep),
{
    let cs = chars_of(s);
    let n = cs.len();
    let mut out: Vec<char> = Vec::new();
    let mut i: usize = 0;
    assert(cs@.skip(0) =~= cs@);
    assert(out@ + replace_quote_pairs(cs@, rep) =~= replace_quote_pairs(cs@, rep));
    while i < n
        invariant
            n == cs@.len(),
            cs@ == s@,
            i <= n,
            out@ + replace_quote_pairs(cs@.skip(i as int), rep) == replace_quote_pairs(cs@, rep),
        decreases n - i,
    {
        let ghost rest = cs@.skip(i as int);
        if i + 1 < n && cs[i] == '"' && cs[i + 1] == '"' {
            assert(rest.skip(2) =~= cs@.skip(i + 2));
            out.push(rep);
            i = i + 2;
        } else {
            if i + 1 < n {
                assert(rest.skip(1) =~= cs@.skip(i + 1));
            } else {
                assert(rest =~= seq![cs@[i as int]]);
                assert(cs@.skip(i + 1).len() == 0);
            }
            out.push(cs[i]);
            i = i + 1;
        }
        assert(out@ + replace_quote_pairs(cs@.skip(i as int), rep) =~= replace_quote_pairs(cs@, rep));
    }
    assert(cs@.skip(n as int) =~= Seq::<char>::empty());
    assert(out@ + Seq::<char>::empty() =~= out@);
    string_of(out.as_slice())
}

/// Collapses every doubled quote into a single quote.
pub fn unescape_double_quote(s: &str) -> (r: String)
    ensures
        r@ == unescaped(s@),
{
    replace_pairs(s, '"')
}

/// Replaces every doubled quote by the sentinel, so that a lone closing
/// quote can be told apart before the line is fully unescaped.
pub fn pre_unescape_double_quote(s: &str) -> (r: String)
    ensures
        r@ == pre_unescaped(s@),
{
    replace_pairs(s, '\t')
}

/// Turns every sentinel back into a quote.
pub fn finish_unescape_double_quote(s: &str) -> (r: String)
    ensures
        r@ == finish_unescaped(s@),
{
    let cs = chars_of(s);
    let mut out: Vec<char> = Vec::new();
    let mut i: usize = 0;
    while i < cs.len()
        invariant
            cs@ == s@,
            i <= cs@.len(),
            out@ == finish_unescaped(cs@.take(i as int)),
        decreases cs@.len() - i,
    {
        let c = cs[i];
        if c == '\t' {
            out.push('"');
        } else {
            out.push(c);
        }
        i = i + 1;
        assert(out@ =~= finish_unescaped(cs@.take(i as int)));
    }
    assert(cs@.take(cs@.len() as int) =~= cs@);
    string_of(out.as_slice())
}

/// Unescaping a line in two halves, through the sentinel, gives the same
/// text as unescaping it at once, for every text that holds no sentinel.
pub proof fn lemma_two_step_unescape(s: Seq<char>)
    requires
        !s.contains(sentinel()),
    ensures
        finish_unescaped(pre_unescaped(s)) == unescaped(s),
    decreases s.len(),
{
    if s.len() < 2 {
        assert(finish_unescaped(s) =~= s) by {
            assert forall|i: int| 0 <= i < s.len() implies s[i] != sentinel() by {
                if s[i] == sentinel() {
                    assert(s.contains(sentinel()));
                }
            }
        }
    } else {
        let k: int = if s[0] == quote() && s[1] == quote() { 2 } else { 1 };
        let rest = s.skip(k);
        assert(!rest.contains(sentinel())) by {
            if rest.contains(sentinel()) {
                let j = choose|j: int| 0 <= j < rest.len() && rest[j] == sentinel();
                assert(s[j + k] == sentinel());
            }
        }
        lemma_two_step_unescape(rest);
        if k == 1 {
            assert(s[0] != sentinel()) by {
                if s[0] == sentinel() {
                    assert(s.contains(sentinel()));
                }
            }
        }
        let head = if k == 2 { seq![sentinel()] } else { seq![s[0]] };
        assert(pre_unescaped(s) == head + pre_unescaped(rest));
        assert(finish_unescaped(head + pre_unescaped(rest)) =~= finish_unescaped(head)
            + finish_unescaped(pre_unescaped(rest)));
    }
}

} // verus!
