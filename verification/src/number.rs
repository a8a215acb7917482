//! Decimal numbers in text.
use vstd::prelude::*;
use crate::text::from_chars;

verus! {

/// The decimal digit with the given value.
pub open spec fn digit(n: int) -> char
    recommends
        0 <= n < 10,
{
    (('0' as u32) + n) as char
}

/// Decimal notation of a natural number, without leading zeros.
pub open spec fn decimal(n: nat) -> Seq<char>
    decreases n,
{
    if n < 10 {
        seq![digit(n as int)]
    } else {
        decimal(n / 10).push(digit((n % 10) as int))
    }
}

/// Decimal notation of an integer.
pub open spec fn decimal_i(n: int) -> Seq<char> {
    if n < 0 {
        seq!['-'] + decimal((-n) as nat)
    } else {
        decimal(n as nat)
    }
}

fn digit_char(d: u64) -> (c: char)
    requires
        d < 10,
    ensures
        c == digit(d as int),
{
    match d {
        0 => '0',
        1 => '1',
        2 => '2',
        3 => '3',
        4 => '4',
        5 => '5',
        6 => '6',
        7 => '7',
        8 => '8',
        _ => '9',
    }
}

/// The characters of a number in decimal.
pub fn decimal_chars(n: u64) -> (out: Vec<char>)
    ensures
        out@ == decimal(n as nat),
    decreases n,
{
    if n < 10 {
        let mut out: Vec<char> = Vec::new();
        out.push(digit_char(n));
        out
    } else {
        let mut out = decimal_chars(n / 10);
        out.push(digit_char(n % 10));
        out
    }
}

/// A number in decimal.
pub fn show_u64(n: u64) -> (out: String)
    ensures
        out@ == decimal(n as nat),
{
    from_chars(&decimal_chars(n))
}

/// An integer in decimal.
pub fn show_i64(n: i64) -> (out: String)
    ensures
        out@ == decimal_i(n as int),
{
    if n < 0 {
        let magnitude: u64 = (-(n as i128)) as u64;
        let digits = decimal_chars(magnitude);
        let mut out: Vec<char> = Vec::new();
        out.push('-');
        crate::text::extend(&mut out, &digits);
        from_chars(&out)
    } else {
        show_u64(n as u64)
    }
}

/// Whether `c` is a decimal digit.
pub open spec fn is_digit(c: char) -> bool {
    '0' <= c <= '9'
}

/// The value of a decimal digit.
pub open spec fn digit_value(c: char) -> int {
    (c as u32) - ('0' as u32)
}

/// The value of a text of decimal digits, the most significant first.
pub open spec fn digits_value(s: Seq<char>) -> nat
    decreases s.len(),
{
    if s.len() == 0 {
        0
    } else {
        digits_value(s.drop_last()) * 10 + digit_value(s.last()) as nat
    }
}

/// Whether `s` is one or more decimal digits.
pub open spec fn all_digits(s: Seq<char>) -> bool {
    s.len() > 0 && forall|i: int| 0 <= i < s.len() ==> is_digit(#[trigger] s[i])
}

/// The digits of an unsigned number: an optional `+` is dropped.
pub open spec fn unsigned_digits(s: Seq<char>) -> Seq<char> {
    if s.len() > 0 && s[0] == '+' {
        s.drop_first()
    } else {
        s
    }
}

/// The unsigned number that `s` denotes, if it is at most `max`.
pub open spec fn parse_nat(s: Seq<char>, max: nat) -> Option<nat> {
    let d = unsigned_digits(s);
    if all_digits(d) && digits_value(d) <= max {
        Some(digits_value(d))
    } else {
        None
    }
}

/// The 64-bit integer that `s` denotes.
pub open spec fn parse_int(s: Seq<char>) -> Option<int> {
    if s.len() > 0 && s[0] == '-' {
        let d = s.drop_first();
        if all_digits(d) && -digits_value(d) >= i64::MIN {
            Some(-digits_value(d))
        } else {
            None
        }
    } else {
        match parse_nat(s, i64::MAX as nat) {
            Some(n) => Some(n as int),
            None => None,
        }
    }
}

proof fn digits_value_grows(s: Seq<char>, n: int)
    requires
        0 <= n <= s.len(),
    ensures
        digits_value(s.take(n)) <= digits_value(s),
    decreases s.len(),
{
    if n < s.len() {
        digits_value_grows(s.drop_last(), n);
        assert(s.drop_last().take(n) =~= s.take(n));
    } else {
        assert(s.take(n) =~= s);
    }
}

/// The value of a text of digits, if it is at most `max`.
pub fn digits_to_u64(s: &[char], max: u64) -> (r: Option<u64>)
    ensures
        match r {
            Some(n) => all_digits(s@) && n == digits_value(s@) && n <= max,
            None => !all_digits(s@) || digits_value(s@) > max,
        },
{
    if s.len() == 0 {
        return None;
    }
    let mut value: u64 = 0;
    let mut i: usize = 0;
    while i < s.len()
        invariant
            i <= s.len(),
            value == digits_value(s@.take(i as int)),
            value <= max,
            forall|k: int| 0 <= k < i ==> is_digit(#[trigger] s@[k]),
        decreases s.len() - i,
    {
        let c = s[i];
        if c < '0' || c > '9' {
            assert(!is_digit(s@[i as int]));
            return None;
        }
        let d: u64 = ((c as u32) - ('0' as u32)) as u64;
        proof {
            assert(s@.take(i + 1).drop_last() =~= s@.take(i as int));
            assert(s@.take(i + 1).last() == c);
            digits_value_grows(s@, i + 1);
        }
        let next: u128 = (value as u128) * 10 + (d as u128);
        if next > max as u128 {
            return None;
        }
        value = next as u64;
        i += 1;
    }
    assert(s@.take(i as int) =~= s@);
    Some(value)
}

/// The unsigned number that `s` denotes, if it is at most `max`.
pub fn parse_u64(s: &[char], max: u64) -> (r: Option<u64>)
    ensures
        match r {
            Some(n) => parse_nat(s@, max as nat) == Some(n as nat),
            None => parse_nat(s@, max as nat) is None,
        },
{
    if s.len() > 0 && s[0] == '+' {
        let rest = crate::text::skip_chars(s, 1);
        assert(rest@ =~= s@.drop_first());
        digits_to_u64(rest, max)
    } else {
        digits_to_u64(s, max)
    }
}

/// The 64-bit integer that `s` denotes.
pub fn parse_i64(s: &[char]) -> (r: Option<i64>)
    ensures
        match r {
            Some(n) => parse_int(s@) == Some(n as int),
            None => parse_int(s@) is None,
        },
{
    if s.len() > 0 && s[0] == '-' {
        let rest = crate::text::skip_chars(s, 1);
        assert(rest@ =~= s@.drop_first());
        match digits_to_u64(rest, 0x8000_0000_0000_0000) {
            Some(n) => Some((-(n as i128)) as i64),
            None => None,
        }
    } else {
        match parse_u64(s, 0x7fff_ffff_ffff_ffff) {
            Some(n) => Some(n as i64),
            None => None,
        }
    }
}

/// What is shown as a decimal integer is read back as that integer.
pub proof fn shown_integer_reads_back(n: int)
    requires
        i64::MIN <= n <= i64::MAX,
    ensures
        parse_int(decimal_i(n)) == Some(n),
{
    let m = if n < 0 {
        (-n) as nat
    } else {
        n as nat
    };
    decimal_is_digits(m);
    if n < 0 {
        assert(decimal_i(n).drop_first() =~= decimal(m));
    } else {
        assert(is_digit(decimal(m)[0]));
        assert(unsigned_digits(decimal(m)) == decimal(m));
    }
}

/// Decimal notation is all digits and has the value of the number.
pub proof fn decimal_is_digits(n: nat)
    ensures
        all_digits(decimal(n)),
        digits_value(decimal(n)) == n,
    decreases n,
{
    if n < 10 {
        let s = seq![digit(n as int)];
        assert(s.drop_last() =~= Seq::<char>::empty());
        assert(digits_value(s.drop_last()) == 0);
        assert(digits_value(s) == digits_value(s.drop_last()) * 10 + digit_value(s.last()) as nat);
    } else {
        decimal_is_digits(n / 10);
        assert(decimal(n).drop_last() =~= decimal(n / 10));
    }
}

/// A digit more at the end of a number counts it tenfold and adds the digit; a single digit counts
/// for itself. What is above the limit is not read.
pub proof fn digits_are_read_from_the_left(s: Seq<char>, c: char, max: nat)
    requires
        '0' <= c <= '9',
    ensures
        ({
            let d: int = c as u32 - '0' as u32;
            &&& parse_nat(seq![c], max) == if d <= max {
                Some(d as nat)
            } else {
                None
            }
            &&& parse_nat(s, max) matches Some(n) ==> parse_nat(s.push(c), max) == if 10 * n + d
                <= max {
                Some((10 * n + d) as nat)
            } else {
                None
            }
        }),
{
    let one = seq![c];
    assert(one.drop_last() =~= Seq::<char>::empty());
    assert(digits_value(one.drop_last()) == 0);
    assert(all_digits(one));
    if parse_nat(s, max) is Some {
        let d = unsigned_digits(s);
        let more = unsigned_digits(s.push(c));
        assert(more =~= d.push(c));
        assert(more.drop_last() =~= d);
        assert forall|i: int| 0 <= i < more.len() implies is_digit(#[trigger] more[i]) by {
            if i < d.len() {
                assert(is_digit(d[i]));
            }
        }
    }
}

/// A number that is read is one or more digits, with at most one `+` before them.
pub proof fn only_digits_are_read(s: Seq<char>, max: nat, i: int)
    requires
        0 <= i < s.len(),
        !('0' <= s[i] <= '9'),
    ensures
        i > 0 || s[i] != '+' ==> parse_nat(s, max) is None,
        s.len() == 1 ==> parse_nat(s, max) is None,
        s[0] == '+' && s.len() > 1 && '0' <= s[1] <= '9' ==> parse_nat(s, max) == parse_nat(
            s.drop_first(),
            max,
        ),
{
    let d = unsigned_digits(s);
    if s[0] == '+' {
        if i > 0 {
            assert(d[i - 1] == s[i]);
        }
        if s.len() > 1 && '0' <= s[1] <= '9' {
            assert(s.drop_first()[0] == s[1]);
        }
    } else {
        assert(d[i] == s[i]);
    }
}

/// A minus sign negates the number behind it, and no number is both negative and written without
/// one.
pub proof fn minus_signs_negate(s: Seq<char>)
    requires
        s.len() > 0,
        '0' <= s[0] <= '9',
    ensures
        parse_int(s) matches Some(n) ==> n >= 0 && parse_nat(s, i64::MAX as nat) == Some(n as nat)
            && parse_int(seq!['-'] + s) == Some(-n),
        parse_int(seq!['-'] + s) matches Some(n) ==> n <= 0 && parse_nat(
            s,
            0x8000_0000_0000_0000,
        ) == Some((-n) as nat),
{
    assert((seq!['-'] + s).drop_first() =~= s);
    assert(unsigned_digits(s) == s);
}

/// Decimal notation grows by a digit at its end: the digit of a number below ten stands for itself,
/// and nothing begins with a zero but zero itself.
pub proof fn decimal_grows_at_its_end(n: nat, d: nat)
    requires
        d < 10,
    ensures
        decimal(d).len() == 1,
        decimal(d)[0] as u32 == '0' as u32 + d,
        n > 0 ==> decimal(10 * n + d) == decimal(n) + decimal(d),
        n > 0 ==> decimal(n)[0] != '0',
    decreases n,
{
    if n > 0 {
        assert((10 * n + d) / 10 == n);
        assert((10 * n + d) % 10 == d);
        assert(decimal(n).push(digit(d as int)) =~= decimal(n) + decimal(d));
        if n >= 10 {
            decimal_grows_at_its_end(n / 10, d);
            decimal_is_digits(n / 10);
        }
    }
}

} // verus!
