//! Unsigned numbers in decimal notation.
use crate::encoding;
use vstd::prelude::*;
use vstd::utf8::*;

verus! {

/// The digit that stands for `d`.
pub open spec fn digit(d: nat) -> char {
    ('0' as u32 + d) as char
}

/// The shortest decimal notation of `n`.
pub open spec fn decimal(n: nat) -> Seq<char>
    decreases n,
{
    if n < 10 {
        seq![digit(n)]
    } else {
        decimal(n / 10).push(digit(n % 10))
    }
}

/// Whether `s` holds digits and nothing else.
pub open spec fn all_digits(s: Seq<char>) -> bool {
    forall|i: int| 0 <= i < s.len() ==> '0' <= #[trigger] s[i] <= '9'
}

/// The number that the digits `s` stand for.
pub open spec fn digits_value(s: Seq<char>) -> int
    decreases s.len(),
{
    if s.len() == 0 {
        0
    } else {
        10 * digits_value(s.drop_last()) + (s.last() as int - '0' as int)
    }
}

/// `s` without the plus sign that may precede its digits.
pub open spec fn unsigned_part(s: Seq<char>) -> Seq<char> {
    if s.len() > 0 && s[0] == '+' {
        s.skip(1)
    } else {
        s
    }
}

/// The number that `s` denotes: one digit or more, with or without a plus sign before them,
/// and a value of at most `max`.
pub open spec fn number_in(s: Seq<char>, max: int) -> Option<int> {
    let digits = unsigned_part(s);
    if digits.len() > 0 && all_digits(digits) && digits_value(digits) <= max {
        Some(digits_value(digits))
    } else {
        None
    }
}

/// The value of digits is not negative, and no smaller than that of the first `k` of them.
proof fn lemma_digits_value_grows(s: Seq<char>, k: int)
    requires
        all_digits(s),
        0 <= k <= s.len(),
    ensures
        0 <= digits_value(s.take(k)) <= digits_value(s),
    decreases s.len(),
{
    if k == s.len() {
        assert(s.take(k) == s);
        if k > 0 {
            lemma_digits_value_grows(s.drop_last(), 0);
            assert(s.drop_last().take(0) == Seq::<char>::empty());
            lemma_digits_value_grows(s.drop_last(), k - 1);
        }
    } else {
        lemma_digits_value_grows(s.drop_last(), k);
        assert(s.drop_last().take(k) == s.take(k));
        assert('0' <= s[s.len() - 1] <= '9');
    }
}

/// Digits that start with another digit than zero stand for a number above zero.
pub proof fn lemma_leading_digit(s: Seq<char>)
    requires
        s.len() > 0,
        all_digits(s),
        s[0] != '0',
    ensures
        digits_value(s) > 0,
    decreases s.len(),
{
    let front = s.drop_last();
    assert('0' <= s[s.len() - 1] <= '9');
    assert('0' <= s[0] <= '9');
    if s.len() == 1 {
        assert(front == Seq::<char>::empty());
        assert(digits_value(front) == 0);
    } else {
        assert forall|i: int| 0 <= i < front.len() implies '0' <= #[trigger] front[i] <= '9' by {
            assert(front[i] == s[i]);
        }
        lemma_leading_digit(front);
    }
}

/// A number that is read is not negative and at most `max`.
pub proof fn lemma_number_in_range(s: Seq<char>, max: int)
    ensures
        number_in(s, max) matches Some(n) ==> 0 <= n <= max,
{
    let digits = unsigned_part(s);
    if number_in(s, max) is Some {
        lemma_digits_value_grows(digits, 0);
    }
}

/// The decimal notation of a number is made of digits, at least one, and stands for that
/// number.
pub proof fn lemma_decimal_value(n: nat)
    ensures
        decimal(n).len() > 0,
        all_digits(decimal(n)),
        digits_value(decimal(n)) == n,
    decreases n,
{
    if n < 10 {
        assert(decimal(n).drop_last() == Seq::<char>::empty());
        assert(digits_value(Seq::<char>::empty()) == 0);
    } else {
        lemma_decimal_value(n / 10);
        assert(decimal(n).drop_last() == decimal(n / 10));
    }
}

/// Reading the decimal notation of a number gives that number.
pub proof fn lemma_decimal_roundtrip(n: nat, max: int)
    requires
        n <= max,
    ensures
        number_in(decimal(n), max) == Some(n as int),
{
    lemma_decimal_value(n);
    assert('0' <= decimal(n)[0] <= '9');
}

/// Appends the bytes of the decimal notation of `n`.
pub fn push_decimal(out: &mut Vec<u8>, n: u64)
    ensures
        final(out)@ == old(out)@ + encode_utf8(decimal(n as nat)),
    decreases n,
{
    if n >= 10 {
        push_decimal(out, n / 10);
    }
    let ghost before = out@;
    let d: u8 = (n % 10) as u8;
    let b: u8 = 48u8 + d;
    out.push(b);
    proof {
        let c = digit((n % 10) as nat);
        let w = c as u32;
        assert(w == 48 + d);
        assert((w & 0x7f) as u8 == w as u8) by (bit_vector)
            requires
                w < 128,
        ;
        assert(seq![c].drop_first() == Seq::<char>::empty());
        assert(encode_utf8(seq![c]) == encode_scalar(w) + encode_utf8(seq![c].drop_first()));
        assert(encode_utf8(seq![c]) == seq![b]);
        if n >= 10 {
            let head = decimal((n / 10) as nat);
            assert(decimal(n as nat) == head + seq![c]);
            encoding::lemma_encode_concat(head, seq![c]);
        }
        assert(out@ == old(out)@ + encode_utf8(decimal(n as nat)));
    }
}

/// Reads a number of 64 bits.
pub fn parse_u64(s: &str) -> (r: Option<u64>)
    ensures
        match r {
            Some(n) => number_in(s@, u64::MAX as int) == Some(n as int),
            None => number_in(s@, u64::MAX as int) is None,
        },
{
    let mut value: u64 = 0;
    let mut any = false;
    let mut first = true;
    let ghost digits = unsigned_part(s@);
    let ghost skipped = s@.len() - digits.len();
    for c in it: s.chars()
        invariant
            it.seq() == s@,
            digits == unsigned_part(s@),
            skipped == s@.len() - digits.len(),
            digits == s@.skip(skipped),
            first == (it.index() == 0),
            any == (it.index() > skipped),
            !any ==> value == 0,
            any ==> all_digits(digits.take(it.index() - skipped)),
            any ==> value == digits_value(digits.take(it.index() - skipped)),
    {
        let ghost i = it.index() as int;
        if first && c == '+' {
            first = false;
        } else {
            first = false;
            proof {
                assert(i >= skipped);
                assert(digits[i - skipped] == c);
            }
            if c < '0' || '9' < c {
                proof {
                    assert(!all_digits(digits));
                }
                return None;
            }
            let d: u64 = c as u64 - 48;
            proof {
                let t = digits.take(i + 1 - skipped);
                assert(t.drop_last() == digits.take(i - skipped));
                assert(t.last() == c);
                if i == skipped {
                    assert(digits.take(0) == Seq::<char>::empty());
                    assert(digits_value(Seq::<char>::empty()) == 0);
                }
                assert(digits_value(t) == 10 * value + d);
                if all_digits(digits) {
                    lemma_digits_value_grows(digits, i + 1 - skipped);
                }
            }
            let tens: u64 = match value.checked_mul(10) {
                Some(t) => t,
                None => {
                    return None;
                },
            };
            value = match tens.checked_add(d) {
                Some(v) => v,
                None => {
                    return None;
                },
            };
            any = true;
        }
    }
    proof {
        assert(digits.take(digits.len() as int) == digits);
    }
    if any {
        Some(value)
    } else {
        None
    }
}

/// Reads a number of the machine's word size.
pub fn parse_usize(s: &str) -> (r: Option<usize>)
    ensures
        match r {
            Some(n) => number_in(s@, usize::MAX as int) == Some(n as int),
            None => number_in(s@, usize::MAX as int) is None,
        },
{
    match parse_u64(s) {
        Some(n) => {
            if n <= usize::MAX as u64 {
                Some(n as usize)
            } else {
                None
            }
        },
        None => None,
    }
}

} // verus!
