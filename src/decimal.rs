//! ASCII decimal numbers, as the wire protocol writes lengths, counts and
//! integers: an optional sign, then one or more digits.
use vstd::prelude::*;

verus! {

pub const ZERO: u8 = 48;
pub const PLUS_SIGN: u8 = 43;
pub const MINUS_SIGN: u8 = 45;

pub open spec fn is_digit(b: u8) -> bool {
    ZERO <= b <= ZERO + 9
}

pub open spec fn all_digits(s: Seq<u8>) -> bool {
    forall|i: int| 0 <= i < s.len() ==> is_digit(#[trigger] s[i])
}

/// The number that a run of digits spells, most significant first.
pub open spec fn digits_value(s: Seq<u8>) -> nat
    decreases s.len(),
{
    if s.len() == 0 {
        0
    } else {
        digits_value(s.drop_last()) * 10 + (s.last() - ZERO) as nat
    }
}

/// The digits of `n`, most significant first, without leading zeros.
pub open spec fn digits_of(n: nat) -> Seq<u8>
    decreases n,
{
    if n < 10 {
        seq![(ZERO + n) as u8]
    } else {
        digits_of(n / 10).push((ZERO + n % 10) as u8)
    }
}

/// The decimal rendering of `n`: a minus sign for negative numbers, then its digits.
pub open spec fn decimal(n: int) -> Seq<u8> {
    if n < 0 {
        seq![MINUS_SIGN] + digits_of((-n) as nat)
    } else {
        digits_of(n as nat)
    }
}

/// The digits that follow an optional plus sign.
pub open spec fn unsigned_body(s: Seq<u8>) -> Seq<u8> {
    if s.len() > 0 && s[0] == PLUS_SIGN {
        s.drop_first()
    } else {
        s
    }
}

/// The value of an optional plus sign and one or more digits.
pub open spec fn unsigned_value(s: Seq<u8>) -> Option<nat> {
    let body = unsigned_body(s);
    if body.len() > 0 && all_digits(body) {
        Some(digits_value(body))
    } else {
        None
    }
}

/// The value of an optional sign and one or more digits.
pub open spec fn signed_value(s: Seq<u8>) -> Option<int> {
    if s.len() > 0 && s[0] == MINUS_SIGN {
        let body = s.drop_first();
        if body.len() > 0 && all_digits(body) {
            Some(-digits_value(body))
        } else {
            None
        }
    } else {
        match unsigned_value(s) {
            Some(v) => Some(v as int),
            None => None,
        }
    }
}

/// `s` read as a `usize`: `None` where it is no number or does not fit.
pub open spec fn usize_of(s: Seq<u8>) -> Option<usize> {
    match unsigned_value(s) {
        Some(v) => if v <= usize::MAX {
            Some(v as usize)
        } else {
            None
        },
        None => None,
    }
}

/// `s` read as an `i64`: `None` where it is no number or does not fit.
pub open spec fn i64_of(s: Seq<u8>) -> Option<i64> {
    match signed_value(s) {
        Some(v) => if i64::MIN <= v <= i64::MAX {
            Some(v as i64)
        } else {
            None
        },
        None => None,
    }
}

pub proof fn lemma_digits_value_step(s: Seq<u8>, i: int)
    requires
        0 <= i < s.len(),
    ensures
        digits_value(s.subrange(0, i + 1)) == digits_value(s.subrange(0, i)) * 10 + (s[i]
            - ZERO) as nat,
{
    assert(s.subrange(0, i + 1).drop_last() =~= s.subrange(0, i));
}

/// A run of digits is worth at least any of its prefixes.
pub proof fn lemma_digits_value_prefix(s: Seq<u8>, i: int)
    requires
        all_digits(s),
        0 <= i <= s.len(),
    ensures
        digits_value(s.subrange(0, i)) <= digits_value(s),
    decreases s.len() - i,
{
    if i < s.len() {
        lemma_digits_value_step(s, i);
        lemma_digits_value_prefix(s, i + 1);
    } else {
        assert(s.subrange(0, i) =~= s);
    }
}

/// The digits of `n`: at least one, all digits, spelling `n`.
pub proof fn lemma_digits_of_are_digits(n: nat)
    ensures
        all_digits(digits_of(n)),
        digits_of(n).len() > 0,
        digits_value(digits_of(n)) == n,
    decreases n,
{
    if n >= 10 {
        lemma_digits_of_are_digits(n / 10);
        let d = digits_of(n);
        assert(d.drop_last() =~= digits_of(n / 10));
        assert((n / 10) * 10 + n % 10 == n);
        assert(d.last() == (ZERO + n % 10) as u8);
        assert(digits_value(d) == digits_value(d.drop_last()) * 10 + (d.last() - ZERO) as nat);
    } else {
        let d = digits_of(n);
        assert(d.drop_last() =~= Seq::<u8>::empty());
        assert(digits_value(d) == digits_value(d.drop_last()) * 10 + (d.last() - ZERO) as nat);
    }
}

/// The decimal rendering of a number reads back as that number.
pub proof fn lemma_decimal_round_trip(n: int)
    ensures
        signed_value(decimal(n)) == Some(n),
        n >= 0 ==> unsigned_value(decimal(n)) == Some(n as nat),
        decimal(n).len() > 0,
        forall|i: int| 0 <= i < decimal(n).len() ==> #[trigger] decimal(n)[i] != 13u8 && decimal(n)[i] != 10u8,
{
    if n < 0 {
        lemma_digits_of_are_digits((-n) as nat);
        assert((seq![MINUS_SIGN] + digits_of((-n) as nat)).drop_first() =~= digits_of((-n) as nat));
    } else {
        lemma_digits_of_are_digits(n as nat);
    }
    assert forall|i: int| 0 <= i < decimal(n).len() implies #[trigger] decimal(n)[i] != 13u8 && decimal(n)[i] != 10u8 by {
        if n < 0 {
            if i > 0 {
                assert(decimal(n)[i] == digits_of((-n) as nat)[i - 1]);
            }
        } else {
            assert(is_digit(digits_of(n as nat)[i]));
        }
    }
}

proof fn lemma_step_bound(acc: u64, d: u64, limit: u64)
    requires
        d <= 9,
        d <= limit,
    ensures
        acc <= (limit - d) / 10 ==> acc * 10 + d <= limit,
        acc > (limit - d) / 10 ==> acc * 10 + d > limit,
{
    let q = (limit - d) / 10;
    assert(q * 10 <= limit - d < q * 10 + 10) by (nonlinear_arith)
        requires
            q == (limit - d) / 10,
            d <= limit,
    ;
    assert(acc <= q ==> acc * 10 <= q * 10) by (nonlinear_arith);
    assert(acc > q ==> acc * 10 >= q * 10 + 10) by (nonlinear_arith);
}

/// Reads the digits `s[start..]` as a number no larger than `limit`.
fn digits_upto(s: &[u8], start: usize, limit: u64) -> (r: Option<u64>)
    requires
        start <= s@.len(),
        limit >= 9,
    ensures
        ({
            let body = s@.subrange(start as int, s@.len() as int);
            match r {
                Some(v) => body.len() > 0 && all_digits(body) && v == digits_value(body) && v <= limit,
                None => !(body.len() > 0 && all_digits(body) && digits_value(body) <= limit),
            }
        }),
{
    let ghost body = s@.subrange(start as int, s@.len() as int);
    if start == s.len() {
        return None;
    }
    let mut acc: u64 = 0;
    let mut i: usize = start;
    while i < s.len()
        invariant
            start <= i <= s@.len(),
            body == s@.subrange(start as int, s@.len() as int),
            limit >= 9,
            all_digits(body.subrange(0, i - start)),
            acc == digits_value(body.subrange(0, i - start)),
            acc <= limit,
        decreases s@.len() - i,
    {
        let b = s[i];
        if b < ZERO || b > ZERO + 9 {
            assert(body[i - start] == b);
            return None;
        }
        let d = (b - ZERO) as u64;
        proof {
            lemma_step_bound(acc, d, limit);
            lemma_digits_value_step(body, i - start);
            assert(body.subrange(0, i - start + 1)[i - start] == b);
        }
        if acc > (limit - d) / 10 {
            proof {
                if all_digits(body) {
                    lemma_digits_value_prefix(body, i - start + 1);
                }
            }
            return None;
        }
        acc = acc * 10 + d;
        i = i + 1;
        assert(all_digits(body.subrange(0, i - start))) by {
            assert forall|j: int| 0 <= j < i - start implies is_digit(
                #[trigger] body.subrange(0, i - start)[j],
            ) by {
                if j < i - start - 1 {
                    assert(body.subrange(0, i - start)[j] == body.subrange(0, i - start - 1)[j]);
                }
            }
        }
    }
    assert(body.subrange(0, i - start) =~= body);
    Some(acc)
}

/// Reads a `usize` written as an optional plus sign and decimal digits.
pub fn parse_usize(s: &[u8]) -> (r: Option<usize>)
    ensures
        r == usize_of(s@),
{
    let start: usize = if s.len() > 0 && s[0] == PLUS_SIGN {
        1
    } else {
        0
    };
    assert(unsigned_body(s@) =~= s@.subrange(start as int, s@.len() as int));
    match digits_upto(s, start, usize::MAX as u64) {
        Some(v) => Some(v as usize),
        None => None,
    }
}

/// Reads an `i64` written as an optional sign and decimal digits.
pub fn parse_i64(s: &[u8]) -> (r: Option<i64>)
    ensures
        r == i64_of(s@),
{
    if s.len() > 0 && s[0] == MINUS_SIGN {
        assert(s@.drop_first() =~= s@.subrange(1, s@.len() as int));
        match digits_upto(s, 1, 0x8000_0000_0000_0000u64) {
            Some(v) => {
                if v == 0x8000_0000_0000_0000u64 {
                    Some(i64::MIN)
                } else {
                    Some(-(v as i64))
                }
            },
            None => None,
        }
    } else {
        let start: usize = if s.len() > 0 && s[0] == PLUS_SIGN {
            1
        } else {
            0
        };
        assert(unsigned_body(s@) =~= s@.subrange(start as int, s@.len() as int));
        match digits_upto(s, start, i64::MAX as u64) {
            Some(v) => Some(v as i64),
            None => None,
        }
    }
}

fn push_digits(out: &mut Vec<u8>, n: u64)
    ensures
        final(out)@ == old(out)@ + digits_of(n as nat),
    decreases n,
{
    if n >= 10 {
        push_digits(out, n / 10);
    }
    out.push(ZERO + (n % 10) as u8);
}

/// Appends the decimal rendering of `n`.
pub fn write_i64(out: &mut Vec<u8>, n: i64)
    ensures
        final(out)@ == old(out)@ + decimal(n as int),
{
    if n < 0 {
        out.push(MINUS_SIGN);
        let magnitude: u64 = if n == i64::MIN {
            0x8000_0000_0000_0000u64
        } else {
            (-n) as u64
        };
        push_digits(out, magnitude);
    } else {
        push_digits(out, n as u64);
    }
}

/// Appends the decimal rendering of `n`.
pub fn write_usize(out: &mut Vec<u8>, n: usize)
    ensures
        final(out)@ == old(out)@ + decimal(n as int),
{
    push_digits(out, n as u64);
}

} // verus!
