//! Decimal formatting and parsing of integers, as `to_string` and
//! `str::parse` do them.
use vstd::prelude::*;
use crate::text::string_of_all;

verus! {

/// The digit character for `d` in `0..10`.
pub open spec fn digit_char(d: int) -> char {
    if d == 0 { '0' }
    else if d == 1 { '1' }
    else if d == 2 { '2' }
    else if d == 3 { '3' }
    else if d == 4 { '4' }
    else if d == 5 { '5' }
    else if d == 6 { '6' }
    else if d == 7 { '7' }
    else if d == 8 { '8' }
    else { '9' }
}

/// The decimal digits of `n`, most significant first, without leading zeros.
pub open spec fn nat_digits(n: nat) -> Seq<char>
    decreases n,
{
    if n < 10 {
        seq![digit_char(n as int)]
    } else {
        nat_digits(n / 10).push(digit_char((n % 10) as int))
    }
}

/// The decimal representation of `n`, with a leading `-` when negative.
pub open spec fn int_decimal(n: int) -> Seq<char> {
    if n < 0 {
        seq!['-'] + nat_digits((-n) as nat)
    } else {
        nat_digits(n as nat)
    }
}

/// `n` in two digits, with a leading zero below ten (`{:02}`).
pub open spec fn two_digits(n: nat) -> Seq<char> {
    if n < 10 {
        seq!['0'] + nat_digits(n)
    } else {
        nat_digits(n)
    }
}

fn digit_of(d: u64) -> (c: char)
    requires
        d < 10,
    ensures
        c == digit_char(d as int),
{
    if d == 0 { '0' }
    else if d == 1 { '1' }
    else if d == 2 { '2' }
    else if d == 3 { '3' }
    else if d == 4 { '4' }
    else if d == 5 { '5' }
    else if d == 6 { '6' }
    else if d == 7 { '7' }
    else if d == 8 { '8' }
    else { '9' }
}

fn push_digits(s: &mut Vec<char>, n: u64)
    ensures
        final(s)@ == old(s)@ + nat_digits(n as nat),
    decreases n,
{
    if n >= 10 {
        push_digits(s, n / 10);
        s.push(digit_of(n % 10));
        proof {
            let a = old(s)@;
            assert(a + nat_digits((n / 10) as nat).push(digit_char((n % 10) as int))
                == (a + nat_digits((n / 10) as nat)).push(digit_char((n % 10) as int)));
        }
    } else {
        s.push(digit_of(n));
    }
}

/// `u64::to_string`.
pub fn u64_text(n: u64) -> (s: String)
    ensures
        s@ == nat_digits(n as nat),
{
    let mut v: Vec<char> = Vec::new();
    push_digits(&mut v, n);
    assert(Seq::<char>::empty() + nat_digits(n as nat) == nat_digits(n as nat));
    string_of_all(&v)
}

/// `i64::to_string`.
pub fn i64_text(n: i64) -> (s: String)
    ensures
        s@ == int_decimal(n as int),
{
    let mut v: Vec<char> = Vec::new();
    if n < 0 {
        v.push('-');
        let m: u64 = if n == i64::MIN { 9223372036854775808u64 } else { (-n) as u64 };
        push_digits(&mut v, m);
    } else {
        push_digits(&mut v, n as u64);
        assert(Seq::<char>::empty() + nat_digits(n as nat) == nat_digits(n as nat));
    }
    string_of_all(&v)
}

/// `format!("{:02}", n)` for `n < 100`.
pub fn two_digit_text(n: u64) -> (s: String)
    requires
        n < 100,
    ensures
        s@ == two_digits(n as nat),
{
    let mut v: Vec<char> = Vec::new();
    if n < 10 {
        v.push('0');
    }
    push_digits(&mut v, n);
    proof {
        if n >= 10 {
            assert(Seq::<char>::empty() + nat_digits(n as nat) == nat_digits(n as nat));
        }
    }
    string_of_all(&v)
}

// ---------------------------------------------------------------------------
// Parsing
// ---------------------------------------------------------------------------
/// An ASCII decimal digit.
pub open spec fn is_digit(c: char) -> bool {
    '0' <= c && c <= '9'
}

/// Every character is an ASCII digit.
pub open spec fn all_digits(s: Seq<char>) -> bool {
    forall|i: int| 0 <= i < s.len() ==> is_digit(#[trigger] s[i])
}

/// The value of a run of digits.
pub open spec fn digits_value(s: Seq<char>) -> int
    decreases s.len(),
{
    if s.len() == 0 {
        0
    } else {
        digits_value(s.drop_last()) * 10 + ((s.last() as u32) as int - 48)
    }
}

/// What `str::parse` reads: an optional `+` (or `-` when `signed`), then one or
/// more ASCII digits; the value, before any range check.
pub open spec fn parse_int_seq(s: Seq<char>, signed: bool) -> Option<int> {
    let neg = signed && s.len() > 0 && s[0] == '-';
    let body = if s.len() > 0 && (s[0] == '+' || neg) { s.drop_first() } else { s };
    if body.len() == 0 || !all_digits(body) {
        None
    } else if neg {
        Some(-digits_value(body))
    } else {
        Some(digits_value(body))
    }
}

/// `str::parse::<i64>`.
pub open spec fn parse_i64_seq(s: Seq<char>) -> Option<i64> {
    match parse_int_seq(s, true) {
        Some(v) => if i64::MIN <= v <= i64::MAX { Some(v as i64) } else { None },
        None => None,
    }
}

/// `str::parse::<u8>`.
pub open spec fn parse_u8_seq(s: Seq<char>) -> Option<u8> {
    match parse_int_seq(s, false) {
        Some(v) => if 0 <= v <= 255 { Some(v as u8) } else { None },
        None => None,
    }
}

/// `str::parse::<usize>`.
pub open spec fn parse_usize_seq(s: Seq<char>) -> Option<usize> {
    match parse_int_seq(s, false) {
        Some(v) => if 0 <= v <= usize::MAX { Some(v as usize) } else { None },
        None => None,
    }
}

proof fn lemma_digits_value_nonneg(s: Seq<char>)
    requires
        all_digits(s),
    ensures
        digits_value(s) >= 0,
    decreases s.len(),
{
    if s.len() > 0 {
        lemma_digits_value_nonneg(s.drop_last());
    }
}

proof fn lemma_digits_value_prefix(s: Seq<char>, k: int)
    requires
        all_digits(s),
        0 <= k <= s.len(),
    ensures
        digits_value(s.take(k)) <= digits_value(s),
    decreases s.len() - k,
{
    if k < s.len() {
        lemma_digits_value_prefix(s, k + 1);
        let t = s.take(k + 1);
        assert(t.drop_last() == s.take(k));
        lemma_digits_value_nonneg(s.take(k));
        assert(is_digit(s[k]));
    } else {
        assert(s.take(k) == s);
    }
}

/// Magnitude of the digit run `v[lo..]` when it is nonempty, all digits and at
/// most `limit`.
fn parse_magnitude(v: &Vec<char>, lo: usize, limit: u64) -> (r: Option<u64>)
    requires
        lo <= v.len(),
    ensures
        ({
            let body = v@.subrange(lo as int, v@.len() as int);
            r == (if body.len() > 0 && all_digits(body) && digits_value(body) <= limit {
                Some(digits_value(body) as u64)
            } else {
                None
            })
        }),
        r matches Some(m) ==> m as int == digits_value(v@.subrange(lo as int, v@.len() as int)) && m <= limit,
{
    let ghost body = v@.subrange(lo as int, v@.len() as int);
    if lo >= v.len() {
        return None;
    }
    let mut acc: u64 = 0;
    let mut over = false;
    let mut i = lo;
    while i < v.len()
        invariant
            lo <= i <= v.len(),
            body == v@.subrange(lo as int, v@.len() as int),
            all_digits(body.take(i - lo)),
            !over ==> acc as int == digits_value(body.take(i - lo)) && acc <= limit,
            over ==> digits_value(body.take(i - lo)) > limit,
        decreases v.len() - i,
    {
        let c = v[i];
        if !('0' <= c && c <= '9') {
            assert(!is_digit(body[i - lo]));
            return None;
        }
        let d: u64 = ((c as u32) - 48) as u64;
        proof {
            let t = body.take(i + 1 - lo);
            assert(t.drop_last() == body.take(i - lo));
            assert(t.last() == c);
            assert forall|j: int| 0 <= j < t.len() implies is_digit(#[trigger] t[j]) by {
                if j < i - lo {
                    assert(t[j] == body.take(i - lo)[j]);
                }
            }
            lemma_digits_value_nonneg(body.take(i - lo));
        }
        if !over {
            let next: u128 = (acc as u128) * 10 + (d as u128);
            if next > limit as u128 {
                over = true;
            } else {
                acc = next as u64;
            }
        }
        i += 1;
    }
    assert(body.take(i - lo) == body);
    proof {
        lemma_digits_value_nonneg(body);
    }
    if over { None } else { Some(acc) }
}

/// `str::parse::<i64>` on characters.
pub fn parse_i64(v: &Vec<char>) -> (r: Option<i64>)
    ensures
        r == parse_i64_seq(v@),
{
    let neg = v.len() > 0 && v[0] == '-';
    let plus = v.len() > 0 && v[0] == '+';
    let lo: usize = if neg || plus { 1 } else { 0 };
    proof {
        if lo == 1 {
            assert(v@.subrange(1, v@.len() as int) == v@.drop_first());
        } else {
            assert(v@.subrange(0, v@.len() as int) == v@);
        }
    }
    let limit: u64 = if neg { 9223372036854775808u64 } else { 9223372036854775807u64 };
    let ghost body = v@.subrange(lo as int, v@.len() as int);
    proof {
        assert(neg == (v@.len() > 0 && v@[0] == '-'));
        if v@.len() > 0 && (v@[0] == '+' || neg) {
            assert(body == v@.drop_first());
        } else {
            assert(body == v@);
        }
    }
    match parse_magnitude(v, lo, limit) {
        Some(m) => {
            assert(parse_int_seq(v@, true) == (if neg { Some(-digits_value(body)) } else { Some(digits_value(body)) }));
            if neg {
                if m == 9223372036854775808u64 {
                    Some(i64::MIN)
                } else {
                    Some(-(m as i64))
                }
            } else {
                Some(m as i64)
            }
        },
        None => {
            proof {
                let body = v@.subrange(lo as int, v@.len() as int);
                if body.len() > 0 && all_digits(body) {
                    lemma_digits_value_nonneg(body);
                }
            }
            None
        },
    }
}

/// `str::parse::<u8>` on characters.
pub fn parse_u8(v: &Vec<char>) -> (r: Option<u8>)
    ensures
        r == parse_u8_seq(v@),
{
    let plus = v.len() > 0 && v[0] == '+';
    let lo: usize = if plus { 1 } else { 0 };
    proof {
        if lo == 1 {
            assert(v@.subrange(1, v@.len() as int) == v@.drop_first());
        } else {
            assert(v@.subrange(0, v@.len() as int) == v@);
        }
    }
    match parse_magnitude(v, lo, 255) {
        Some(m) => Some(m as u8),
        None => {
            proof {
                let body = v@.subrange(lo as int, v@.len() as int);
                if body.len() > 0 && all_digits(body) {
                    lemma_digits_value_nonneg(body);
                }
            }
            None
        },
    }
}

/// `str::parse::<usize>` on characters.
pub fn parse_usize(v: &Vec<char>) -> (r: Option<usize>)
    ensures
        r == parse_usize_seq(v@),
{
    let plus = v.len() > 0 && v[0] == '+';
    let lo: usize = if plus { 1 } else { 0 };
    proof {
        if lo == 1 {
            assert(v@.subrange(1, v@.len() as int) == v@.drop_first());
        } else {
            assert(v@.subrange(0, v@.len() as int) == v@);
        }
    }
    let limit: u64 = usize::MAX as u64;
    match parse_magnitude(v, lo, limit) {
        Some(m) => Some(m as usize),
        None => {
            proof {
                let body = v@.subrange(lo as int, v@.len() as int);
                if body.len() > 0 && all_digits(body) {
                    lemma_digits_value_nonneg(body);
                }
            }
            None
        },
    }
}

} // verus!
