//! Numbers written in decimal.

use crate::text::{chars_of, is_digit, without_prefix};
use vstd::prelude::*;

verus! {

/// The decimal digit for `d`, which is below ten.
pub open spec fn digit(d: nat) -> char {
    ('0' as u32 + d) as char
}

/// `n` in decimal, without leading zeros.
pub open spec fn decimal(n: nat) -> Seq<char>
    decreases n,
{
    if n < 10 {
        seq![digit(n)]
    } else {
        decimal(n / 10).push(digit(n % 10))
    }
}

/// `n` in decimal, with a minus sign where it is negative.
pub open spec fn signed(n: int) -> Seq<char> {
    if n < 0 {
        seq!['-'] + decimal((-n) as nat)
    } else {
        decimal(n as nat)
    }
}

/// The number that a sequence of digits stands for.
pub open spec fn value(s: Seq<char>) -> nat
    decreases s.len(),
{
    if s.len() == 0 {
        0
    } else {
        value(s.drop_last()) * 10 + (s.last() as nat - '0' as nat) as nat
    }
}

pub open spec fn all_digits(s: Seq<char>) -> bool {
    s.len() > 0 && forall|i: int| 0 <= i < s.len() ==> is_digit(#[trigger] s[i])
}

/// What follows a plus sign, where one leads.
pub open spec fn unsigned_part(s: Seq<char>) -> Seq<char> {
    match without_prefix(s, seq!['+']) {
        Some(rest) => rest,
        None => s,
    }
}

/// The number that `str::parse::<u32>` reads: digits, with an optional plus sign before
/// them, of a value that fits.
pub open spec fn read_u32(s: Seq<char>) -> Option<u32> {
    let digits = unsigned_part(s);
    if all_digits(digits) && value(digits) <= u32::MAX {
        Some(value(digits) as u32)
    } else {
        None
    }
}

/// `n` in decimal.
pub fn to_decimal(n: u64) -> (r: String)
    ensures
        r@ == decimal(n as nat),
    decreases n,
{
    let mut out = if n < 10 { String::new() } else { to_decimal(n / 10) };
    let d: u8 = (n % 10) as u8;
    let c: char = (48u8 + d) as char;
    out.push(c);
    proof {
        assert(out@ =~= decimal(n as nat));
    }
    out
}

/// `n` in decimal, with a minus sign where it is negative.
pub fn to_signed(n: i64) -> (r: String)
    ensures
        r@ == signed(n as int),
{
    if n >= 0 {
        return to_decimal(n as u64);
    }
    let mut out = String::new();
    out.push('-');
    let size: u64 = if n == i64::MIN {
        0x8000_0000_0000_0000u64
    } else {
        (-n) as u64
    };
    let digits = to_decimal(size);
    out.append(digits.as_str());
    assert(out@ =~= signed(n as int));
    out
}

proof fn lemma_value_prefix(s: Seq<char>, n: int)
    requires
        0 <= n <= s.len(),
    ensures
        value(s.take(n)) <= value(s),
    decreases s.len() - n,
{
    if n < s.len() {
        lemma_value_prefix(s, n + 1);
        assert(s.take(n + 1).drop_last() =~= s.take(n));
    } else {
        assert(s.take(n) =~= s);
    }
}

/// The number that `s` holds, as `str::parse::<u32>` reads it.
pub fn parse_u32(s: &str) -> (r: Option<u32>)
    ensures
        r == read_u32(s@),
{
    let cs = chars_of(s);
    let total: usize = cs.len();
    let from: usize = if total > 0 && cs[0] == '+' { 1 } else { 0 };
    let ghost digits = unsigned_part(s@);
    proof {
        if total > 0 {
            assert(s@.take(1) =~= seq![s@[0]]);
        }
        assert(seq!['+'][0] == '+');
        if from == 0 {
            assert(digits =~= s@.skip(0));
        }
        assert(digits =~= s@.skip(from as int));
    }
    if from == total {
        return None;
    }
    let mut i: usize = from;
    let mut sum: u32 = 0;
    while i < total
        invariant
            from <= i <= total == cs@.len(),
            cs@ == s@,
            digits == s@.skip(from as int),
            digits == unsigned_part(s@),
            sum == value(digits.take(i - from)),
            forall|j: int| 0 <= j < i - from ==> is_digit(#[trigger] digits[j]),
        decreases total - i,
    {
        let c = cs[i];
        assert(digits[i - from] == c);
        if !('0' <= c && c <= '9') {
            return None;
        }
        let d: u32 = c as u32 - 48;
        proof {
            assert(digits.take(i + 1 - from).drop_last() =~= digits.take(i - from));
            assert(digits.take(i + 1 - from).last() == c);
            lemma_value_prefix(digits, i + 1 - from);
        }
        let next: u64 = sum as u64 * 10 + d as u64;
        if next > 4_294_967_295u64 {
            return None;
        }
        sum = next as u32;
        i += 1;
    }
    assert(digits.take(total - from) =~= digits);
    Some(sum)
}

/// The decimal text of a number is a nonempty run of digits of that value.
pub proof fn lemma_decimal(n: nat)
    ensures
        all_digits(decimal(n)),
        value(decimal(n)) == n,
    decreases n,
{
    let s = decimal(n);
    if n < 10 {
        assert(s.drop_last() =~= seq![]);
        assert(value(s.drop_last()) == 0);
    } else {
        lemma_decimal(n / 10);
        assert(s.drop_last() =~= decimal(n / 10));
        assert forall|i: int| 0 <= i < s.len() implies is_digit(#[trigger] s[i]) by {
            if i < s.len() - 1 {
                assert(s[i] == decimal(n / 10)[i]);
            }
        }
    }
}

/// Reading the decimal text of a number gives the number back.
pub proof fn lemma_read_decimal(n: u32)
    ensures
        read_u32(decimal(n as nat)) == Some(n),
{
    lemma_decimal(n as nat);
    let s = decimal(n as nat);
    assert(is_digit(s[0]));
    assert(s.take(1)[0] == s[0]);
    assert(seq!['+'][0] == '+');
}

/// Different numbers have different decimal texts.
pub proof fn lemma_decimal_injective(a: nat, b: nat)
    requires
        decimal(a) == decimal(b),
    ensures
        a == b,
{
    lemma_decimal(a);
    lemma_decimal(b);
}

/// A number below ten is written as its digit, and each further digit stands behind those of the
/// tens; a negative number has a minus sign.
pub proof fn law_numbers_are_written_in_decimal(n: u64, r: String, small: i64, text: String)
    requires
        call_ensures(to_decimal, (n,), r),
        call_ensures(to_signed, (small,), text),
    ensures
        n < 10 ==> r@ == seq!["0123456789"@[n as int]],
        n >= 10 ==> r@ == decimal((n / 10) as nat) + seq!["0123456789"@[(n % 10) as int]],
        small >= 0 ==> text@ == decimal(small as nat),
        small < 0 ==> text@ == "-"@ + decimal((-small) as nat),
{
    reveal_strlit("0123456789");
    let all = "0123456789"@;
    assert(all[0] == '0' && all[1] == '1' && all[2] == '2' && all[3] == '3' && all[4] == '4'
        && all[5] == '5' && all[6] == '6' && all[7] == '7' && all[8] == '8' && all[9] == '9');
    reveal_strlit("-");
    assert("-"@ =~= seq!['-']);
    if n >= 10 {
        assert(r@ =~= decimal((n / 10) as nat) + seq![digit((n % 10) as nat)]);
    }
}

/// Reading what was written gives the number back, also behind a plus sign; anything else than
/// digits is refused, and so is a number that does not fit.
pub proof fn law_numbers_are_read_as_written(s: &str, r: Option<u32>, n: nat, i: int)
    requires
        call_ensures(parse_u32, (s,), r),
    ensures
        n <= 4294967295 && (s@ == decimal(n) || s@ == "+"@ + decimal(n)) ==> r == Some(n as u32),
        n > 4294967295 && (s@ == decimal(n) || s@ == "+"@ + decimal(n)) ==> r is None,
        s@.len() == 0 || s@ == "+"@ ==> r is None,
        0 < i < s@.len() && !('0' <= s@[i] <= '9') ==> r is None,
        0 < s@.len() && s@[0] != '+' && !('0' <= s@[0] <= '9') ==> r is None,
{
    lemma_decimal(n);
    reveal_strlit("+");
    assert("+"@ =~= seq!['+']);
    assert(seq!['+'][0] == '+');
    let s = s@;
    if s == decimal(n) {
        assert(is_digit(s[0]));
        assert(s.take(1)[0] == s[0]);
    }
    if s == "+"@ + decimal(n) {
        assert(s.take(1) =~= seq!['+']);
        assert(s.skip(1) =~= decimal(n));
    }
    if s == "+"@ {
        assert(s.take(1) =~= seq!['+']);
    }
    if 0 < i < s.len() && !('0' <= s[i] <= '9') {
        let digits = unsigned_part(s);
        if s.take(1) == seq!['+'] {
            assert(digits[i - 1] == s[i]);
        } else {
            assert(digits[i] == s[i]);
        }
    }
    if 0 < s.len() && s[0] != '+' && !('0' <= s[0] <= '9') {
        assert(s.take(1)[0] == s[0]);
        assert(unsigned_part(s) == s);
    }
}

} // verus!
