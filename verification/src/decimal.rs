//! Numbers in decimal notation.

use vstd::prelude::*;

use crate::text;

verus! {

/// The character for a digit.
pub open spec fn digit(d: int) -> char {
    if d == 0 {
        '0'
    } else if d == 1 {
        '1'
    } else if d == 2 {
        '2'
    } else if d == 3 {
        '3'
    } else if d == 4 {
        '4'
    } else if d == 5 {
        '5'
    } else if d == 6 {
        '6'
    } else if d == 7 {
        '7'
    } else if d == 8 {
        '8'
    } else {
        '9'
    }
}

/// The digit that a character stands for, or -1.
pub open spec fn digit_value(c: char) -> int {
    if '0' <= c <= '9' {
        c as int - '0' as int
    } else {
        -1
    }
}

/// A number in decimal notation, with no leading zero.
pub open spec fn decimal(n: nat) -> Seq<char>
    decreases n,
{
    if n < 10 {
        seq![digit(n as int)]
    } else {
        decimal(n / 10).push(digit((n % 10) as int))
    }
}

/// An integer in decimal notation, with a minus sign where it is negative.
pub open spec fn signed(n: int) -> Seq<char> {
    if n < 0 {
        seq!['-'] + decimal((-n) as nat)
    } else {
        decimal(n as nat)
    }
}

fn digit_char(d: u64) -> (r: char)
    requires
        d < 10,
    ensures
        r == digit(d as int),
{
    match d {
        0 => '0',
        1 => '1',
        2 => '2',
        3 => '3',
        4 => '4',
        5 => '5',
        6 => '6',
        7 => '7',
        8 => '8',
        _ => '9',
    }
}

/// A number in decimal notation.
pub fn show(n: u64) -> (r: String)
    ensures
        r@ == decimal(n as nat),
    decreases n,
{
    let mut out = if n < 10 {
        String::new()
    } else {
        show(n / 10)
    };
    out.push(digit_char(n % 10));
    proof {
        if n < 10 {
            assert(out@ =~= decimal(n as nat));
        }
    }
    out
}

/// A number in decimal notation.
pub fn show_size(n: usize) -> (r: String)
    ensures
        r@ == decimal(n as nat),
{
    show(n as u64)
}

/// An integer in decimal notation.
pub fn show_signed(n: i32) -> (r: String)
    ensures
        r@ == signed(n as int),
{
    if n < 0 {
        let mut out = String::new();
        out.push('-');
        let m: i64 = -(n as i64);
        let digits = show(m as u64);
        text::append(&mut out, digits.as_str());
        assert(out@ =~= signed(n as int));
        out
    } else {
        show(n as u64)
    }
}

/// The number that the digits stand for, or -1 where there is none or one is no digit.
pub open spec fn number(s: Seq<char>) -> int
    decreases s.len(),
{
    if s.len() == 0 {
        -1
    } else if digit_value(s.last()) < 0 {
        -1
    } else if s.len() == 1 {
        digit_value(s[0])
    } else if number(s.drop_last()) < 0 {
        -1
    } else {
        number(s.drop_last()) * 10 + digit_value(s.last())
    }
}

/// The value of an integer that is written as digits with at most one sign before
/// them, within the range of 32 bits.
pub open spec fn read_i32(s: Seq<char>) -> Option<int> {
    let signed = s.len() > 0 && (s[0] == '-' || s[0] == '+');
    let digits = if signed {
        s.drop_first()
    } else {
        s
    };
    let n = number(digits);
    let v = if signed && s[0] == '-' {
        -n
    } else {
        n
    };
    if n < 0 || v < i32::MIN || v > i32::MAX {
        None
    } else {
        Some(v)
    }
}

proof fn lemma_number_grows(s: Seq<char>, i: int)
    requires
        0 < i <= s.len(),
        number(s) >= 0,
    ensures
        0 <= number(s.take(i)) <= number(s),
    decreases s.len() - i,
{
    if i == s.len() {
        assert(s.take(i) =~= s);
    } else {
        let t = s.drop_last();
        lemma_number_grows(t, i);
        assert(t.take(i) =~= s.take(i));
    }
}

proof fn lemma_bad_digit(s: Seq<char>, i: int)
    requires
        0 <= i < s.len(),
        digit_value(s[i]) < 0,
    ensures
        number(s) == -1,
    decreases s.len() - i,
{
    if i < s.len() - 1 {
        let t = s.drop_last();
        assert(t[i] == s[i]);
        lemma_bad_digit(t, i);
    }
}

proof fn lemma_number_sign(s: Seq<char>)
    ensures
        number(s) >= -1,
    decreases s.len(),
{
    if s.len() > 0 {
        lemma_number_sign(s.drop_last());
    }
}

/// Reads an integer of 32 bits.
pub fn parse_i32(v: &Vec<char>, from: usize, to: usize) -> (r: Option<i32>)
    requires
        from <= to <= v@.len(),
    ensures
        match r {
            Some(n) => read_i32(v@.subrange(from as int, to as int)) == Some(n as int),
            None => read_i32(v@.subrange(from as int, to as int)) is None,
        },
{
    let ghost s = v@.subrange(from as int, to as int);
    let has_sign = from < to && (v[from] == '-' || v[from] == '+');
    let minus = from < to && v[from] == '-';
    let first: usize = if has_sign {
        from + 1
    } else {
        from
    };
    let ghost d = v@.subrange(first as int, to as int);
    assert(has_sign ==> s.drop_first() =~= d);
    assert(!has_sign ==> s =~= d);
    if first == to {
        return None;
    }
    let mut n: i64 = 0;
    let mut i: usize = first;
    while i < to
        invariant
            from <= first <= i <= to <= v@.len(),
            first < to,
            s == v@.subrange(from as int, to as int),
            has_sign == (s[0] == '-' || s[0] == '+'),
            has_sign ==> d == s.drop_first(),
            !has_sign ==> d == s,
            d == v@.subrange(first as int, to as int),
            i == first ==> n == 0,
            i > first ==> n == number(d.take(i - first)),
            0 <= n <= 2147483648,
        decreases to - i,
    {
        let c: char = v[i];
        let ghost k = i - first;
        assert(d[k] == c);
        assert(d.take(k + 1).drop_last() =~= d.take(k));
        if !('0' <= c && c <= '9') {
            proof {
                lemma_bad_digit(d, k);
            }
            return None;
        }
        n = n * 10 + (c as u32 - '0' as u32) as i64;
        assert(n == number(d.take(k + 1)));
        if n > 2147483648 {
            proof {
                lemma_number_sign(d);
                if number(d) >= 0 {
                    lemma_number_grows(d, k + 1);
                }
            }
            return None;
        }
        i += 1;
    }
    assert(d.take(d.len() as int) =~= d);
    if minus {
        Some((-n) as i32)
    } else if n > 2147483647 {
        None
    } else {
        Some(n as i32)
    }
}

/// A number is read back from its notation.
pub proof fn lemma_number_of_decimal(n: nat)
    ensures
        number(decimal(n)) == n,
        decimal(n).len() > 0,
        forall|i: int| 0 <= i < decimal(n).len() ==> '0' <= #[trigger] decimal(n)[i] <= '9',
    decreases n,
{
    if n < 10 {
        assert(digit_value(digit(n as int)) == n);
    } else {
        lemma_number_of_decimal(n / 10);
        let d = decimal(n);
        assert(d.drop_last() =~= decimal(n / 10));
        assert(digit_value(digit((n % 10) as int)) == n % 10);
        assert(n == (n / 10) * 10 + n % 10);
        assert forall|i: int| 0 <= i < d.len() implies '0' <= #[trigger] d[i] <= '9' by {
            if i < d.len() - 1 {
                assert(d[i] == decimal(n / 10)[i]);
            }
        }
    }
}

/// An integer of 32 bits is read back from its notation.
pub proof fn integers_are_read_back(n: i32)
    ensures
        read_i32(signed(n as int)) == Some(n as int),
{
    if n < 0 {
        let m = (-(n as int)) as nat;
        lemma_number_of_decimal(m);
        assert(signed(n as int).drop_first() =~= decimal(m));
    } else {
        lemma_number_of_decimal(n as nat);
        assert('0' <= decimal(n as nat)[0] <= '9');
    }
}

/// The notation of an integer is digits and at most a minus sign.
pub proof fn lemma_signed_chars(n: int)
    ensures
        signed(n).len() > 0,
        forall|i: int|
            0 <= i < signed(n).len() ==> '0' <= #[trigger] signed(n)[i] <= '9' || signed(n)[i] == '-',
{
    let m = if n < 0 {
        (-n) as nat
    } else {
        n as nat
    };
    lemma_number_of_decimal(m);
    if n < 0 {
        assert forall|i: int| 0 <= i < signed(n).len() implies '0' <= #[trigger] signed(n)[i] <= '9'
            || signed(n)[i] == '-' by {
            if i > 0 {
                assert(signed(n)[i] == decimal(m)[i - 1]);
            }
        }
    }
}

/// Digits with zeros before them, up to a width.
pub open spec fn widened(s: Seq<char>, width: nat) -> Seq<char>
    decreases width - s.len(),
{
    if s.len() >= width {
        s
    } else {
        widened(seq!['0'] + s, width)
    }
}

/// A number in decimal with zeros before it, up to a width.
pub open spec fn padded(n: nat, width: nat) -> Seq<char> {
    widened(decimal(n), width)
}

/// A number in decimal with zeros before it, up to a width.
pub fn show_padded(n: u64, width: usize) -> (r: String)
    ensures
        r@ == padded(n as nat, width as nat),
{
    let mut out = show(n);
    let mut len: usize = out.as_str().unicode_len();
    while len < width
        invariant
            len == out@.len(),
            widened(out@, width as nat) == padded(n as nat, width as nat),
        decreases width - len,
    {
        let mut longer = "0".to_owned();
        longer.append(out.as_str());
        proof {
            reveal_strlit("0");
            assert("0"@ =~= seq!['0']);
        }
        out = longer;
        len += 1;
    }
    out
}

/// The value of a number that is written as digits with at most a `+` before them,
/// within the range of 64 bits.
pub open spec fn read_u64(s: Seq<char>) -> Option<int> {
    let digits = if s.len() > 0 && s[0] == '+' {
        s.drop_first()
    } else {
        s
    };
    let n = number(digits);
    if n < 0 || n > u64::MAX {
        None
    } else {
        Some(n)
    }
}

/// Reads a number of 64 bits.
pub fn parse_u64(s: &str) -> (r: Option<u64>)
    ensures
        match r {
            Some(n) => read_u64(s@) == Some(n as int),
            None => read_u64(s@) is None,
        },
{
    let v = crate::text::chars_of(s);
    let to: usize = v.len();
    let first: usize = if to > 0 && v[0] == '+' {
        1
    } else {
        0
    };
    let ghost d = v@.subrange(first as int, to as int);
    assert(first == 1 ==> s@.drop_first() =~= d);
    assert(first == 0 ==> s@ =~= d);
    if first == to {
        return None;
    }
    let mut n: u64 = 0;
    let mut i: usize = first;
    while i < to
        invariant
            first <= i <= to,
            first < to,
            to == v@.len(),
            d == v@.subrange(first as int, to as int),
            d == if s@.len() > 0 && s@[0] == '+' {
                s@.drop_first()
            } else {
                s@
            },
            i == first ==> n == 0,
            i > first ==> n == number(d.take(i - first)),
        decreases to - i,
    {
        let c: char = v[i];
        let ghost k = i - first;
        assert(d[k] == c);
        assert(d.take(k + 1).drop_last() =~= d.take(k));
        if !('0' <= c && c <= '9') {
            proof {
                lemma_bad_digit(d, k);
            }
            return None;
        }
        let next: u128 = n as u128 * 10 + (c as u32 - '0' as u32) as u128;
        assert(next == number(d.take(k + 1)));
        if next > u64::MAX as u128 {
            proof {
                lemma_number_sign(d);
                if number(d) >= 0 {
                    lemma_number_grows(d, k + 1);
                }
            }
            return None;
        }
        n = next as u64;
        i += 1;
    }
    assert(d.take(d.len() as int) =~= d);
    Some(n)
}

/// A number below a hundred takes two digits: that of the tens and that of the ones.
pub proof fn two_digits_are_tens_and_ones(n: nat)
    requires
        n < 100,
    ensures
        padded(n, 2) == seq![digit((n / 10) as int), digit((n % 10) as int)],
{
    reveal_with_fuel(decimal, 3);
    reveal_with_fuel(widened, 3);
    assert(padded(n, 2) =~= seq![digit((n / 10) as int), digit((n % 10) as int)]);
}

/// A number of 64 bits is read back from its notation, with a plus sign or without.
pub proof fn large_numbers_are_read_back(n: u64)
    ensures
        read_u64(decimal(n as nat)) == Some(n as int),
        read_u64(seq!['+'] + decimal(n as nat)) == Some(n as int),
{
    lemma_number_of_decimal(n as nat);
    let d = decimal(n as nat);
    assert('0' <= d[0] <= '9');
    assert((seq!['+'] + d).drop_first() =~= d);
}

} // verus!
