use vstd::prelude::*;

verus! {

/// An ASCII letter, an ASCII decimal digit or an underscore.
pub open spec fn is_word_char(c: char) -> bool {
    ('a' <= c && c <= 'z') || ('A' <= c && c <= 'Z') || ('0' <= c && c <= '9') || c == '_'
}

/// An ASCII decimal digit.
pub open spec fn is_digit_char(c: char) -> bool {
    '0' <= c && c <= '9'
}

/// The end of the run of word characters of `s` that starts at `k`.
pub open spec fn word_run_end(s: Seq<char>, k: int) -> int
    decreases s.len() - k,
{
    if 0 <= k < s.len() && is_word_char(s[k]) {
        word_run_end(s, k + 1)
    } else {
        k
    }
}

/// The end of the run of decimal digits of `s` that starts at `k`.
pub open spec fn digit_run_end(s: Seq<char>, k: int) -> int
    decreases s.len() - k,
{
    if 0 <= k < s.len() && is_digit_char(s[k]) {
        digit_run_end(s, k + 1)
    } else {
        k
    }
}

/// The number that a sequence of decimal digits spells.
pub open spec fn decimal_value(d: Seq<char>) -> nat
    decreases d.len(),
{
    if d.len() == 0 {
        0
    } else {
        10 * decimal_value(d.drop_last()) + (d.last() as nat - '0' as nat) as nat
    }
}

pub proof fn lemma_run_end_bounds(s: Seq<char>, k: int)
    requires
        0 <= k <= s.len(),
    ensures
        k <= word_run_end(s, k) <= s.len(),
        k <= digit_run_end(s, k) <= s.len(),
    decreases s.len() - k,
{
    if k < s.len() {
        lemma_run_end_bounds(s, k + 1);
    }
}

/// The characters of `s`, one by one.
pub fn chars_of(s: &str) -> (r: Vec<char>)
    ensures
        r@ == s@,
{
    let n = s.unicode_len();
    let mut r: Vec<char> = Vec::new();
    let mut i: usize = 0;
    while i < n
        invariant
            n == s@.len(),
            i <= n,
            r@ == s@.subrange(0, i as int),
        decreases n - i,
    {
        r.push(s.get_char(i));
        i = i + 1;
    }
    r
}

/// The end of the run of word characters of `cs` that starts at `k`.
pub fn scan_word_run(cs: &Vec<char>, k: usize) -> (r: usize)
    requires
        k <= cs@.len(),
    ensures
        r == word_run_end(cs@, k as int),
        k <= r <= cs@.len(),
{
    let mut i = k;
    while i < cs.len() && is_word(cs[i])
        invariant
            k <= i <= cs@.len(),
            word_run_end(cs@, k as int) == word_run_end(cs@, i as int),
        decreases cs@.len() - i,
    {
        i = i + 1;
    }
    i
}

/// The end of the run of decimal digits of `cs` that starts at `k`.
pub fn scan_digit_run(cs: &Vec<char>, k: usize) -> (r: usize)
    requires
        k <= cs@.len(),
    ensures
        r == digit_run_end(cs@, k as int),
        k <= r <= cs@.len(),
{
    let mut i = k;
    while i < cs.len() && is_digit(cs[i])
        invariant
            k <= i <= cs@.len(),
            digit_run_end(cs@, k as int) == digit_run_end(cs@, i as int),
        decreases cs@.len() - i,
    {
        i = i + 1;
    }
    i
}

pub fn is_word(c: char) -> (r: bool)
    ensures
        r == is_word_char(c),
{
    ('a' <= c && c <= 'z') || ('A' <= c && c <= 'Z') || ('0' <= c && c <= '9') || c == '_'
}

pub fn is_digit(c: char) -> (r: bool)
    ensures
        r == is_digit_char(c),
{
    '0' <= c && c <= '9'
}

/// The value of the digits `cs[from..to]` if it is at most `limit`, else `None`.
pub fn bounded_decimal(cs: &Vec<char>, from: usize, to: usize, limit: u32) -> (r: Option<u32>)
    requires
        from <= to <= cs@.len(),
        forall|i: int| from <= i < to ==> is_digit_char(#[trigger] cs@[i]),
        limit < 100_000,
    ensures
        match r {
            Some(v) => v == decimal_value(cs@.subrange(from as int, to as int)) && v <= limit,
            None => decimal_value(cs@.subrange(from as int, to as int)) > limit,
        },
{
    let mut v: u32 = 0;
    let mut i = from;
    while i < to
        invariant
            from <= i <= to <= cs@.len(),
            forall|k: int| from <= k < to ==> is_digit_char(#[trigger] cs@[k]),
            v == decimal_value(cs@.subrange(from as int, i as int)),
            v <= limit,
            limit < 100_000,
        decreases to - i,
    {
        let d = (cs[i] as u32) - ('0' as u32);
        proof {
            let p = cs@.subrange(from as int, i as int + 1);
            assert(p.drop_last() == cs@.subrange(from as int, i as int));
            assert(p.last() == cs@[i as int]);
        }
        let nv: u64 = 10 * (v as u64) + (d as u64);
        if nv > limit as u64 {
            proof {
                let p = cs@.subrange(from as int, i as int + 1);
                lemma_decimal_grows(cs@.subrange(from as int, to as int), (i - from + 1) as nat);
                assert(cs@.subrange(from as int, to as int).subrange(0, (i - from + 1) as int) == p);
            }
            return None;
        }
        v = nv as u32;
        i = i + 1;
    }
    Some(v)
}

/// A number spelled by digits is at least the number spelled by any prefix of them.
pub proof fn lemma_decimal_grows(d: Seq<char>, n: nat)
    requires
        n <= d.len(),
        forall|i: int| 0 <= i < d.len() ==> is_digit_char(#[trigger] d[i]),
    ensures
        decimal_value(d) >= decimal_value(d.subrange(0, n as int)),
    decreases d.len(),
{
    if n < d.len() {
        let e = d.drop_last();
        assert(e.subrange(0, n as int) == d.subrange(0, n as int));
        lemma_decimal_grows(e, n);
    } else {
        assert(d.subrange(0, n as int) == d);
    }
}

} // verus!
