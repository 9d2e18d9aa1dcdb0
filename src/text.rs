use vstd::prelude::*;
use vstd::string::*;

verus! {

/// The characters of `s`, in order.
pub fn chars_of(s: &str) -> (r: Vec<char>)
    ensures
        r@ == s@,
{
    let mut out: Vec<char> = Vec::new();
    for c in it: s.chars()
        invariant
            out@ == it.seq().take(it.index() as int),
    {
        out.push(c);
    }
    out
}

/// Relies on `String::push`: the character is added at the end.
#[verifier::external_body]
fn push_char(s: &mut String, c: char)
    ensures
        final(s)@ == old(s)@.push(c),
{
    s.push(c)
}

/// A string holding the characters of `v` from `lo` up to `hi`.
pub fn string_of_range(v: &Vec<char>, lo: usize, hi: usize) -> (r: String)
    requires
        lo <= hi <= v@.len(),
    ensures
        r@ == v@.subrange(lo as int, hi as int),
{
    let mut out = String::new();
    let mut i: usize = lo;
    while i < hi
        invariant
            lo <= i <= hi <= v@.len(),
            out@ == v@.subrange(lo as int, i as int),
        decreases hi - i,
    {
        push_char(&mut out, v[i]);
        assert(v@.subrange(lo as int, i as int).push(v@[i as int]) =~= v@.subrange(lo as int, i + 1));
        i = i + 1;
    }
    out
}

/// A string holding exactly the characters of `v`.
pub fn string_of(v: &[char]) -> (r: String)
    ensures
        r@ == v@,
{
    let mut out = String::new();
    let mut i: usize = 0;
    while i < v.len()
        invariant
            i <= v@.len(),
            out@ == v@.take(i as int),
        decreases v@.len() - i,
    {
        push_char(&mut out, v[i]);
        assert(v@.take(i as int).push(v@[i as int]) =~= v@.take(i as int + 1));
        i = i + 1;
    }
    assert(v@.take(v@.len() as int) =~= v@);
    out
}

} // verus!

verus! {

/// The character of a decimal digit.
pub open spec fn digit_char(d: nat) -> char {
    if d == 0 { '0' }
    else if d == 1 { '1' }
    else if d == 2 { '2' }
    else if d == 3 { '3' }
    else if d == 4 { '4' }
    else if d == 5 { '5' }
    else if d == 6 { '6' }
    else if d == 7 { '7' }
    else if d == 8 { '8' }
    else { '9' }
}

/// `n` written in decimal, without leading zeros.
pub open spec fn decimal(n: nat) -> Seq<char>
    decreases n,
{
    if n < 10 {
        seq![digit_char(n)]
    } else {
        decimal(n / 10).push(digit_char(n % 10))
    }
}

/// `n` in decimal with a comma between each group of three digits,
/// counted from the right.
pub open spec fn grouped_decimal(n: nat) -> Seq<char>
    decreases n,
{
    if n < 1000 {
        decimal(n)
    } else {
        let m = n % 1000;
        grouped_decimal(n / 1000) + seq![
            ',',
            digit_char(m / 100),
            digit_char((m / 10) % 10),
            digit_char(m % 10),
        ]
    }
}

/// Relies on num_format's `ToFormattedString` with `Locale::ja`, whose
/// separator is "," and whose grouping is by three digits.
#[verifier::external_body]
pub(crate) fn format_count_ja(n: u32) -> (r: String)
    ensures
        r@ == grouped_decimal(n as nat),
{
    num_format::ToFormattedString::to_formatted_string(&n, &num_format::Locale::ja)
}

} // verus!

verus! {

/// `s` cut at every tab; there is always at least one field.
pub open spec fn split_tab(s: Seq<char>) -> Seq<Seq<char>>
    decreases s.len(),
{
    if s.len() == 0 {
        seq![Seq::empty()]
    } else {
        let init = split_tab(s.drop_last());
        if s.last() == '\t' {
            init.push(Seq::empty())
        } else {
            init.update(init.len() - 1, init.last().push(s.last()))
        }
    }
}

pub proof fn lemma_split_tab_len(s: Seq<char>)
    ensures
        split_tab(s).len() >= 1,
    decreases s.len(),
{
    if s.len() > 0 {
        lemma_split_tab_len(s.drop_last());
    }
}

pub open spec fn char_seqs(v: Seq<Vec<char>>) -> Seq<Seq<char>> {
    v.map_values(|f: Vec<char>| f@)
}

/// The tab-separated fields of `s`.
pub fn split_fields(s: &Vec<char>) -> (r: Vec<Vec<char>>)
    ensures
        char_seqs(r@) == split_tab(s@),
{
    let mut fields: Vec<Vec<char>> = Vec::new();
    let mut cur: Vec<char> = Vec::new();
    let mut i: usize = 0;
    assert(s@.take(0) =~= Seq::<char>::empty());
    assert(char_seqs(fields@).push(cur@) =~= split_tab(s@.take(0)));
    while i < s.len()
        invariant
            i <= s@.len(),
            char_seqs(fields@).push(cur@) == split_tab(s@.take(i as int)),
        decreases s@.len() - i,
    {
        let c = s[i];
        let ghost before = s@.take(i as int);
        assert(s@.take(i + 1).drop_last() =~= before);
        proof {
            lemma_split_tab_len(before);
        }
        if c == '\t' {
            fields.push(cur);
            cur = Vec::new();
            assert(char_seqs(fields@).push(cur@) =~= split_tab(before).push(Seq::empty()));
        } else {
            cur.push(c);
            assert(char_seqs(fields@).push(cur@) =~= split_tab(before).update(
                split_tab(before).len() - 1,
                split_tab(before).last().push(c),
            ));
        }
        i = i + 1;
    }
    assert(s@.take(s@.len() as int) =~= s@);
    fields.push(cur);
    assert(char_seqs(fields@) =~= split_tab(s@));
    fields
}

pub open spec fn is_digit(c: char) -> bool {
    '0' <= c && c <= '9'
}

pub open spec fn digit_value(c: char) -> nat {
    (c as u32 - '0' as u32) as nat
}

pub open spec fn all_digits(s: Seq<char>) -> bool {
    forall|i: int| 0 <= i < s.len() ==> is_digit(#[trigger] s[i])
}

/// The number that a string of decimal digits denotes.
pub open spec fn digits_value(s: Seq<char>) -> nat
    decreases s.len(),
{
    if s.len() == 0 {
        0
    } else {
        digits_value(s.drop_last()) * 10 + digit_value(s.last())
    }
}

/// The digits of an unsigned number, after an optional plus sign.
pub open spec fn unsigned_digits(s: Seq<char>) -> Seq<char> {
    if s.len() > 0 && s[0] == '+' {
        s.skip(1)
    } else {
        s
    }
}

/// The unsigned number that `s` spells, when it spells one no larger than
/// `max`: an optional plus sign and at least one decimal digit.
pub open spec fn parsed_uint(s: Seq<char>, max: nat) -> Option<nat> {
    let d = unsigned_digits(s);
    if d.len() > 0 && all_digits(d) && digits_value(d) <= max {
        Some(digits_value(d))
    } else {
        None
    }
}

proof fn lemma_digits_value_grows(d: Seq<char>, i: int, j: int)
    requires
        0 <= i <= j <= d.len(),
        all_digits(d),
    ensures
        digits_value(d.take(i)) <= digits_value(d.take(j)),
    decreases j - i,
{
    if i < j {
        lemma_digits_value_grows(d, i, j - 1);
        assert(d.take(j).drop_last() =~= d.take(j - 1));
    }
}

/// Reads the unsigned number that `s[lo..hi]` spells, if it is at most `max`.
pub fn parse_uint(s: &Vec<char>, lo: usize, hi: usize, max: u32) -> (r: Option<u32>)
    requires
        lo <= hi <= s@.len(),
    ensures
        match parsed_uint(s@.subrange(lo as int, hi as int), max as nat) {
            Some(v) => r == Some(v as u32),
            None => r is None,
        },
{
    let ghost t = s@.subrange(lo as int, hi as int);
    let mut start = lo;
    if lo < hi && s[lo] == '+' {
        start = lo + 1;
    }
    let ghost d = unsigned_digits(t);
    assert(d =~= s@.subrange(start as int, hi as int));
    if start == hi {
        return None;
    }
    let mut acc: u64 = 0;
    let mut i = start;
    while i < hi
        invariant
            lo <= start <= i <= hi <= s@.len(),
            d == s@.subrange(start as int, hi as int),
            d == unsigned_digits(s@.subrange(lo as int, hi as int)),
            all_digits(d.take(i - start)),
            acc == digits_value(d.take(i - start)),
            acc <= max,
        decreases hi - i,
    {
        let c = s[i];
        if c < '0' || c > '9' {
            assert(d[i - start] == c);
            assert(!is_digit(d[i - start]));
            assert(!all_digits(d));
            return None;
        }
        let ghost k = i - start;
        assert(d.take(k + 1).drop_last() =~= d.take(k));
        assert(d.take(k + 1).last() == c);
        acc = acc * 10 + (c as u32 - '0' as u32) as u64;
        assert(acc == digits_value(d.take(k + 1)));
        i = i + 1;
        assert(all_digits(d.take(i - start))) by {
            assert forall|j: int| 0 <= j < d.take(i - start).len() implies is_digit(#[trigger] d.take(i - start)[j]) by {
                if j < k {
                    assert(d.take(i - start)[j] == d.take(k)[j]);
                }
            }
        }
        if acc > max as u64 {
            proof {
                if all_digits(d) {
                    lemma_digits_value_grows(d, i - start, d.len() as int);
                    assert(d.take(d.len() as int) =~= d);
                    assert(digits_value(d) > max);
                }
            }
            return None;
        }
    }
    assert(d.take(hi - start) =~= d);
    Some(acc as u32)
}

/// The first position of `c` in `s`, if it occurs.
pub open spec fn index_of(s: Seq<char>, c: char) -> Option<int>
    decreases s.len(),
{
    if s.len() == 0 {
        None
    } else if s.last() != c {
        match index_of(s.drop_last(), c) {
            Some(k) => Some(k),
            None => None,
        }
    } else {
        match index_of(s.drop_last(), c) {
            Some(k) => Some(k),
            None => Some(s.len() - 1),
        }
    }
}

proof fn lemma_index_of_range(s: Seq<char>, c: char)
    ensures
        index_of(s, c) matches Some(k) ==> 0 <= k < s.len(),
    decreases s.len(),
{
    if s.len() > 0 {
        lemma_index_of_range(s.drop_last(), c);
    }
}

proof fn lemma_index_of_absent(s: Seq<char>, c: char)
    requires
        forall|j: int| 0 <= j < s.len() ==> s[j] != c,
    ensures
        index_of(s, c) is None,
    decreases s.len(),
{
    if s.len() > 0 {
        lemma_index_of_absent(s.drop_last(), c);
    }
}

/// Finds the first position of `c` in `s`.
pub fn find_char(s: &Vec<char>, c: char) -> (r: Option<usize>)
    ensures
        match r {
            Some(k) => index_of(s@, c) == Some(k as int) && k < s@.len(),
            None => index_of(s@, c) is None,
        },
{
    proof {
        lemma_index_of_range(s@, c);
    }
    let mut i: usize = 0;
    while i < s.len()
        invariant
            i <= s@.len(),
            forall|j: int| 0 <= j < i ==> s@[j] != c,
        decreases s@.len() - i,
    {
        if s[i] == c {
            proof {
                lemma_index_of_absent(s@.take(i as int), c);
                lemma_index_of_prefix(s@, c, i as int + 1);
                assert(s@.take(i + 1).drop_last() =~= s@.take(i as int));
            }
            return Some(i);
        }
        i = i + 1;
    }
    proof {
        lemma_index_of_absent(s@, c);
    }
    None
}

/// Once `c` occurs within the first `n` characters, cutting the rest off
/// does not move its first position.
proof fn lemma_index_of_prefix(s: Seq<char>, c: char, n: int)
    requires
        0 <= n <= s.len(),
        index_of(s.take(n), c) is Some,
    ensures
        index_of(s, c) == index_of(s.take(n), c),
    decreases s.len() - n,
{
    if n < s.len() {
        assert(s.take(n + 1).drop_last() =~= s.take(n));
        lemma_index_of_prefix(s, c, n + 1);
    } else {
        assert(s.take(n) =~= s);
    }
}

pub open spec fn starts_with(s: Seq<char>, p: Seq<char>) -> bool {
    p.len() <= s.len() && s.take(p.len() as int) == p
}

/// `s` begins with `p`.
pub fn has_prefix(s: &Vec<char>, p: &str) -> (r: bool)
    ensures
        r == starts_with(s@, p@),
{
    let pc = chars_of(p);
    if pc.len() > s.len() {
        return false;
    }
    let mut i: usize = 0;
    while i < pc.len()
        invariant
            pc@ == p@,
            pc@.len() <= s@.len(),
            i <= pc@.len(),
            forall|j: int| 0 <= j < i ==> s@[j] == pc@[j],
        decreases pc@.len() - i,
    {
        if s[i] != pc[i] {
            assert(s@.take(pc@.len() as int)[i as int] != pc@[i as int]);
            return false;
        }
        i = i + 1;
    }
    assert(s@.take(pc@.len() as int) =~= pc@);
    true
}

/// `s` is exactly `p`.
pub fn equals_str(s: &Vec<char>, p: &str) -> (r: bool)
    ensures
        r == (s@ == p@),
{
    let b = has_prefix(s, p);
    proof {
        if s@.len() == p@.len() {
            assert(s@.take(p@.len() as int) =~= s@);
        }
    }
    b && s.len() == p.unicode_len()
}

} // verus!
