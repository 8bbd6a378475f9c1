//! Amounts of money as whole hundredths (cents), and rates and limits as
//! whole hundredths too: their text in the journal, and reading it back.
use vstd::prelude::*;
use crate::text::{
    decimal, digits_value, all_digits, is_digit, digit_value, find, u64_digits, parse_u64_exec,
    find_exec, subvec, skip_from, append, lemma_decimal_digits, lemma_digit_char, digit_char,
    lemma_find_bounds, lemma_find_from_first, matches_at,
};
use crate::date::padded;

verus! {

/// `n` as two digits, zero-padded (`n` below 100).
pub open spec fn two_digits(n: nat) -> Seq<char> {
    padded(n, 2)
}

/// An amount of cents as `{:.2}` writes it: a `-` when negative, the whole
/// units, a point and two digits.
pub open spec fn cents_text(c: int) -> Seq<char> {
    let a = if c < 0 {
        -c
    } else {
        c
    };
    let sign = if c < 0 {
        seq!['-']
    } else {
        seq![]
    };
    sign + decimal((a / 100) as nat) + seq!['.'] + two_digits((a % 100) as nat)
}

/// A number of hundredths in its shortest decimal text (as a float's
/// `Display` writes it): no fraction when it is whole, one digit when the
/// hundredths digit is zero, else two.
pub open spec fn hundredths_text(h: int) -> Seq<char> {
    let a = if h < 0 {
        -h
    } else {
        h
    };
    let sign = if h < 0 {
        seq!['-']
    } else {
        seq![]
    };
    let f = a % 100;
    let frac = if f == 0 {
        seq![]
    } else if f % 10 == 0 {
        seq!['.', digit_char(f / 10)]
    } else {
        seq!['.'] + two_digits(f as nat)
    };
    sign + decimal((a / 100) as nat) + frac
}

/// The sign and the rest of a number's text.
pub open spec fn sign_split(s: Seq<char>) -> (bool, Seq<char>) {
    if s.len() > 0 && s[0] == '-' {
        (true, s.drop_first())
    } else if s.len() > 0 && s[0] == '+' {
        (false, s.drop_first())
    } else {
        (false, s)
    }
}

/// The value in hundredths of the fraction digits `fp`, rounded half away
/// from zero: the first two digits (a missing one read as zero), plus one
/// when a third digit is 5 or more.
pub open spec fn fraction_value(fp: Seq<char>) -> int {
    let tens = if fp.len() >= 1 {
        digit_value(fp[0])
    } else {
        0
    };
    let ones = if fp.len() >= 2 {
        digit_value(fp[1])
    } else {
        0
    };
    let up = if fp.len() >= 3 && digit_value(fp[2]) >= 5 {
        1int
    } else {
        0int
    };
    tens * 10 + ones + up
}

/// A decimal number in hundredths, rounded half away from zero: an
/// optional sign, integer digits, and an optional point followed by
/// fraction digits, with at least one digit in all; `None` for any other
/// text or a value out of the `i64` range.
pub open spec fn hundredths_of(s: Seq<char>) -> Option<int> {
    let (neg, body) = sign_split(s);
    let (ip, fp) = match find(body, seq!['.']) {
        Some(i) => (body.take(i), body.skip(i + 1)),
        None => (body, seq![]),
    };
    if all_digits(ip) && all_digits(fp) && (ip.len() > 0 || fp.len() > 0) {
        let v = digits_value(ip) * 100 + fraction_value(fp);
        let sv = if neg {
            -v
        } else {
            v
        };
        if i64::MIN <= sv && sv <= i64::MAX {
            Some(sv)
        } else {
            None
        }
    } else {
        None
    }
}

/// `n` (below 100) as two digits.
fn two_digits_exec(n: u64) -> (r: Vec<char>)
    requires
        n < 100,
    ensures
        r@ == two_digits(n as nat),
{
    let d = u64_digits(n);
    proof {
        lemma_decimal_digits(n as nat);
    }
    if d.len() < 2 {
        let mut r = vec!['0'];
        append(&mut r, &d);
        assert(r@ =~= padded(n as nat, 2));
        r
    } else {
        d
    }
}

/// The magnitude of an `i64` as a `u64`.
fn magnitude(c: i64) -> (r: u64)
    ensures
        r as int == if c < 0 {
            -c
        } else {
            c as int
        },
{
    if c < 0 {
        if c == i64::MIN {
            9223372036854775808u64
        } else {
            (-c) as u64
        }
    } else {
        c as u64
    }
}

/// An amount of cents as `{:.2}` writes it (see `cents_text`).
pub fn cents_string(c: i64) -> (r: Vec<char>)
    ensures
        r@ == cents_text(c as int),
{
    let a = magnitude(c);
    let mut r: Vec<char> = if c < 0 {
        vec!['-']
    } else {
        Vec::new()
    };
    let units = u64_digits(a / 100);
    append(&mut r, &units);
    r.push('.');
    let f = two_digits_exec(a % 100);
    append(&mut r, &f);
    assert(r@ =~= cents_text(c as int));
    r
}

/// A number of hundredths in its shortest decimal text (see
/// `hundredths_text`).
pub fn hundredths_string(h: i64) -> (r: Vec<char>)
    ensures
        r@ == hundredths_text(h as int),
{
    let a = magnitude(h);
    let mut r: Vec<char> = if h < 0 {
        vec!['-']
    } else {
        Vec::new()
    };
    let units = u64_digits(a / 100);
    append(&mut r, &units);
    let ghost head = r@;
    let f = a % 100;
    if f == 0 {
        assert(r@ =~= head + Seq::<char>::empty());
    } else if f % 10 == 0 {
        let c = ((f / 10) as u8 + ('0' as u8)) as char;
        r.push('.');
        r.push(c);
        assert(r@ =~= head + seq!['.', digit_char((f / 10) as int)]);
    } else {
        r.push('.');
        let t = two_digits_exec(f);
        append(&mut r, &t);
        assert(r@ =~= head + (seq!['.'] + two_digits(f as nat)));
    }
    assert(r@ =~= hundredths_text(h as int));
    r
}

/// Whether every character of `s` is an ASCII digit.
fn all_digits_exec(s: &[char]) -> (r: bool)
    ensures
        r == all_digits(s@),
{
    let mut i: usize = 0;
    while i < s.len()
        invariant
            i <= s@.len(),
            forall|k: int| 0 <= k < i ==> is_digit(#[trigger] s@[k]),
        decreases s@.len() - i,
    {
        if !('0' <= s[i] && s[i] <= '9') {
            assert(!is_digit(s@[i as int]));
            return false;
        }
        i += 1;
    }
    true
}

/// Reads a decimal number as hundredths, rounded half away from zero (see
/// `hundredths_of`).
#[verifier::rlimit(30)]
pub fn parse_hundredths(s: &[char]) -> (r: Option<i64>)
    ensures
        match r {
            Some(v) => hundredths_of(s@) == Some(v as int),
            None => hundredths_of(s@) is None,
        },
{
    let mut neg = false;
    let mut start: usize = 0;
    if s.len() > 0 && s[0] == '-' {
        neg = true;
        start = 1;
    } else if s.len() > 0 && s[0] == '+' {
        start = 1;
    }
    let body = skip_from(s, start);
    assert(sign_split(s@) == (neg, body@)) by {
        if s@.len() > 0 && (s@[0] == '-' || s@[0] == '+') {
            assert(body@ =~= s@.drop_first());
        } else {
            assert(body@ =~= s@);
        }
    }
    let dot = vec!['.'];
    assert(dot@ =~= seq!['.']);
    let (ip, fp) = match find_exec(&body, &dot) {
        Some(i) => {
            proof {
                lemma_find_bounds(body@, seq!['.']);
            }
            (subvec(&body, 0, i), skip_from(&body, i + 1))
        },
        None => (subvec(&body, 0, body.len()), Vec::new()),
    };
    proof {
        match find(body@, seq!['.']) {
            Some(i) => {
                assert(ip@ =~= body@.take(i));
            },
            None => {
                assert(ip@ =~= body@);
                assert(fp@ =~= Seq::<char>::empty());
            },
        }
    }
    if !(all_digits_exec(&ip) && all_digits_exec(&fp) && (ip.len() > 0 || fp.len() > 0)) {
        return None;
    }
    let iv: u64 = if ip.len() == 0 {
        0
    } else {
        match parse_u64_exec(&ip) {
            Some(v) => v,
            None => {
                proof {
                    assert(ip@.len() > 0 && ip@[0] != '+');
                    assert(crate::text::unsigned_body(ip@) == ip@);
                    assert(digits_value(ip@) > u64::MAX);
                }
                return None;
            },
        }
    };
    proof {
        if ip@.len() > 0 {
            assert(ip@[0] != '+');
            assert(crate::text::unsigned_body(ip@) == ip@);
        }
    }
    assert(iv as int == digits_value(ip@));
    let tens: u64 = if fp.len() >= 1 {
        (fp[0] as u32 - '0' as u32) as u64
    } else {
        0
    };
    let ones: u64 = if fp.len() >= 2 {
        (fp[1] as u32 - '0' as u32) as u64
    } else {
        0
    };
    let up: u64 = if fp.len() >= 3 && fp[2] >= '5' {
        1
    } else {
        0
    };
    proof {
        if fp@.len() >= 3 {
            assert(is_digit(fp@[2]));
        }
    }
    let fv: u64 = tens * 10 + ones + up;
    assert(fv as int == fraction_value(fp@));
    let total: u128 = (iv as u128) * 100 + (fv as u128);
    if neg {
        if total > 9223372036854775808u128 {
            return None;
        }
        if total == 9223372036854775808u128 {
            return Some(i64::MIN);
        }
        Some(-(total as i64))
    } else {
        if total > 9223372036854775807u128 {
            return None;
        }
        Some(total as i64)
    }
}

// ---------------------------------------------------------------------------
// Reading back what was written
// ---------------------------------------------------------------------------

/// Two zero-padded digits of `n` are two digits worth `n`.
pub proof fn lemma_two_digits(n: nat)
    requires
        n < 100,
    ensures
        two_digits(n).len() == 2,
        all_digits(two_digits(n)),
        digits_value(two_digits(n)) == n,
        two_digits(n)[0] == digit_char((n / 10) as int),
        two_digits(n)[1] == digit_char((n % 10) as int),
{
    lemma_decimal_digits(n);
    lemma_digit_char((n % 10) as int);
    lemma_digit_char((n / 10) as int);
    let t = two_digits(n);
    if n < 10 {
        assert(decimal(n) == seq![digit_char(n as int)]);
        assert(t =~= seq!['0', digit_char(n as int)]);
        assert(t.drop_last() =~= seq!['0']);
        assert(seq!['0'].drop_last() =~= Seq::<char>::empty());
        assert(seq!['0'].last() == '0');
        assert(digit_value('0') == 0);
        assert(digits_value(seq!['0']) == digits_value(seq!['0'].drop_last()) * 10 + digit_value('0'));
        assert(digits_value(seq!['0']) == 0);
    } else {
        assert(decimal(n) == decimal(n / 10).push(digit_char((n % 10) as int)));
        assert(decimal(n / 10) == seq![digit_char((n / 10) as int)]);
        assert(t =~= seq![digit_char((n / 10) as int), digit_char((n % 10) as int)]);
    }
}

/// A text of digits, a point, then `rest` splits at that point.
proof fn lemma_find_point(d: Seq<char>, rest: Seq<char>)
    requires
        all_digits(d),
    ensures
        find(d + seq!['.'] + rest, seq!['.']) == Some(d.len() as int),
{
    let s = d + seq!['.'] + rest;
    assert(s.subrange(d.len() as int, d.len() + 1int) =~= seq!['.']);
    assert forall|k: int| 0 <= k < d.len() implies !#[trigger] matches_at(s, seq!['.'], k) by {
        assert(s.subrange(k, k + 1)[0] == d[k]);
        assert(is_digit(d[k]));
    }
    lemma_find_from_first(s, seq!['.'], 0, d.len() as int);
}

/// A text of digits has no point.
proof fn lemma_no_point(d: Seq<char>)
    requires
        all_digits(d),
    ensures
        find(d, seq!['.']) is None,
{
    lemma_find_bounds(d, seq!['.']);
    if find(d, seq!['.']) is Some {
        let i = find(d, seq!['.'])->Some_0;
        assert(d.subrange(i, i + 1)[0] == d[i]);
        assert(is_digit(d[i]));
    }
}

/// An amount written as `{:.2}` reads back as the same number of cents.
pub proof fn lemma_cents_round_trip(c: i64)
    ensures
        hundredths_of(cents_text(c as int)) == Some(c as int),
{
    let a: int = if c < 0 {
        -c
    } else {
        c as int
    };
    let q = (a / 100) as nat;
    let r = (a % 100) as nat;
    lemma_decimal_digits(q);
    lemma_two_digits(r);
    lemma_digit_char((r / 10) as int);
    lemma_digit_char((r % 10) as int);
    let body = decimal(q) + seq!['.'] + two_digits(r);
    let t = cents_text(c as int);
    if c < 0 {
        assert(t =~= seq!['-'] + body);
        assert(t.drop_first() =~= body);
    } else {
        assert(t =~= body);
        assert(is_digit(decimal(q)[0]));
    }
    assert(sign_split(t) == (c < 0, body));
    lemma_find_point(decimal(q), two_digits(r));
    assert(body.take(decimal(q).len() as int) =~= decimal(q));
    assert(body.skip(decimal(q).len() + 1int) =~= two_digits(r));
}

/// A rate or limit written in its shortest form reads back as the same
/// number of hundredths.
pub proof fn lemma_hundredths_round_trip(h: i64)
    ensures
        hundredths_of(hundredths_text(h as int)) == Some(h as int),
{
    let a: int = if h < 0 {
        -h
    } else {
        h as int
    };
    let q = (a / 100) as nat;
    let f = a % 100;
    lemma_decimal_digits(q);
    let frac = if f == 0 {
        seq![]
    } else if f % 10 == 0 {
        seq!['.', digit_char(f / 10)]
    } else {
        seq!['.'] + two_digits(f as nat)
    };
    let body = decimal(q) + frac;
    let t = hundredths_text(h as int);
    if h < 0 {
        assert(t =~= seq!['-'] + body);
        assert(t.drop_first() =~= body);
    } else {
        assert(t =~= body);
        assert(is_digit(decimal(q)[0]));
    }
    assert(sign_split(t) == (h < 0, body));
    if f == 0 {
        assert(body =~= decimal(q));
        lemma_no_point(decimal(q));
    } else if f % 10 == 0 {
        lemma_digit_char(f / 10);
        let fp = seq![digit_char(f / 10)];
        assert(body =~= decimal(q) + seq!['.'] + fp);
        lemma_find_point(decimal(q), fp);
        assert(body.take(decimal(q).len() as int) =~= decimal(q));
        assert(body.skip(decimal(q).len() + 1int) =~= fp);
        assert(all_digits(fp));
    } else {
        lemma_two_digits(f as nat);
        lemma_digit_char(f / 10);
        lemma_digit_char(f % 10);
        assert(body =~= decimal(q) + seq!['.'] + two_digits(f as nat));
        lemma_find_point(decimal(q), two_digits(f as nat));
        assert(body.take(decimal(q).len() as int) =~= decimal(q));
        assert(body.skip(decimal(q).len() + 1int) =~= two_digits(f as nat));
    }
}

} // verus!
