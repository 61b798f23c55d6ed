//! The run's settings, and the checks made on them before the core runs.
use vstd::prelude::*;

verus! {

/// Settings of one run.
pub struct Opt {
    /// Existing path where the local registry index resides
    pub index_path: String,
    /// Existing path where archive files are downloaded to
    pub download_path: String,
    /// Base URL of the registry's crates endpoint
    pub crates_io_url: String,
    /// Maximum number of downloads in flight at once
    pub threads: u8,
}

/// The least accepted concurrency limit.
pub const MIN_CONCURRENCY: u8 = 1;

/// The greatest accepted concurrency limit.
pub const MAX_CONCURRENCY: u8 = 50;

pub open spec fn is_digit(c: char) -> bool {
    '0' <= c <= '9'
}

/// The number written by a string of decimal digits.
pub open spec fn digits_value(s: Seq<char>) -> int
    decreases s.len(),
{
    if s.len() == 0 {
        0
    } else {
        digits_value(s.drop_last()) * 10 + (s.last() as int - '0' as int)
    }
}

/// The digits of an unsigned decimal numeral, after an optional `+`.
pub open spec fn numeral_digits(s: Seq<char>) -> Seq<char> {
    if s.len() > 0 && s[0] == '+' {
        s.drop_first()
    } else {
        s
    }
}

/// An unsigned decimal numeral: an optional `+`, then one digit or more.
pub open spec fn is_numeral(s: Seq<char>) -> bool {
    let d = numeral_digits(s);
    d.len() > 0 && forall|i: int| 0 <= i < d.len() ==> is_digit(#[trigger] d[i])
}

/// A numeral whose value is an accepted concurrency limit.
pub open spec fn is_concurrency_limit(s: Seq<char>) -> bool {
    is_numeral(s) && MIN_CONCURRENCY <= digits_value(numeral_digits(s)) <= MAX_CONCURRENCY
}

pub open spec fn path_error_message() -> Seq<char> {
    "Value must be an existing path"@
}

pub open spec fn concurrency_error_message() -> Seq<char> {
    "Expected value in range 1-50"@
}

/// Accepts `s` as a path when it names something that exists; `exists`
/// tells whether it does.
pub fn parse_path(s: &str, exists: bool) -> (r: Result<String, &'static str>)
    ensures
        exists ==> (r matches Ok(p) && p@ == s@),
        !exists ==> (r matches Err(e) && e@ == path_error_message()),
{
    if exists {
        Ok(s.to_string())
    } else {
        Err("Value must be an existing path")
    }
}

proof fn lemma_capped_step(v: int, capped: int, d: int)
    requires
        v >= 0,
        0 <= d <= 9,
        capped == if v > 1000 { 1000 } else { v },
    ensures
        (if capped * 10 + d > 1000 { 1000 } else { capped * 10 + d }) == (if v * 10 + d > 1000 {
            1000
        } else {
            v * 10 + d
        }),
{
}

proof fn lemma_digits_value_nonneg(s: Seq<char>)
    requires
        forall|i: int| 0 <= i < s.len() ==> is_digit(#[trigger] s[i]),
    ensures
        digits_value(s) >= 0,
    decreases s.len(),
{
    if s.len() > 0 {
        let t = s.drop_last();
        assert forall|i: int| 0 <= i < t.len() implies is_digit(#[trigger] t[i]) by {
            assert(t[i] == s[i]);
        }
        lemma_digits_value_nonneg(t);
        assert(is_digit(s[s.len() - 1]));
    }
}

/// Reads a concurrency limit: a decimal numeral in the accepted range.
pub fn parse_thread_size(s: &str) -> (r: Result<u8, &'static str>)
    ensures
        is_concurrency_limit(s@) ==> (r matches Ok(n) && n as int == digits_value(
            numeral_digits(s@),
        )),
        !is_concurrency_limit(s@) ==> (r matches Err(e) && e@ == concurrency_error_message()),
{
    let help_msg = "Expected value in range 1-50";
    proof {
        reveal_strlit("Expected value in range 1-50");
    }
    let ghost chars = s@;
    let ghost d = numeral_digits(chars);
    let len = s.unicode_len();
    let mut start: usize = 0;
    if len > 0 && s.get_char(0) == '+' {
        start = 1;
    }
    assert(d =~= chars.subrange(start as int, chars.len() as int));
    if start >= len {
        return Err(help_msg);
    }
    let mut i: usize = start;
    let mut capped: u64 = 0;
    while i < len
        invariant
            start <= i <= len,
            len == chars.len(),
            chars == s@,
            d == numeral_digits(chars),
            help_msg@ == concurrency_error_message(),
            d =~= chars.subrange(start as int, chars.len() as int),
            forall|k: int| 0 <= k < i - start ==> is_digit(#[trigger] d[k]),
            capped as int == if digits_value(d.subrange(0, i - start)) > 1000 {
                1000
            } else {
                digits_value(d.subrange(0, i - start))
            },
        decreases len - i,
    {
        let c = s.get_char(i);
        assert(d[i - start] == c);
        if c < '0' || c > '9' {
            return Err(help_msg);
        }
        let ghost pre = d.subrange(0, i - start);
        let ghost next = d.subrange(0, i + 1 - start);
        assert(next.drop_last() =~= pre);
        assert(next.last() == c);
        proof {
            lemma_digits_value_nonneg(pre);
            lemma_capped_step(digits_value(pre), capped as int, c as int - '0' as int);
        }
        let digit = (c as u32 - '0' as u32) as u64;
        capped = if capped * 10 + digit > 1000 {
            1000
        } else {
            capped * 10 + digit
        };
        i = i + 1;
    }
    assert(d.subrange(0, i - start) =~= d);
    if capped >= MIN_CONCURRENCY as u64 && capped <= MAX_CONCURRENCY as u64 {
        Ok(capped as u8)
    } else {
        Err(help_msg)
    }
}

} // verus!
