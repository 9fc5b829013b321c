//! Numbers with a fraction and an exponent, as text.

use vstd::prelude::*;

use crate::decimal::{digit_value, number};
use crate::order;
use crate::order::text_before;
use crate::text;

verus! {

/// The digits of the least number that has no finite value in single precision. Numbers
/// of 39 digits before the point are held against it.
pub const FIRST_INFINITE: &'static str = "340282356779733661637539395458142568448";

pub open spec fn all_digits(s: Seq<char>) -> bool {
    forall|i: int| 0 <= i < s.len() ==> '0' <= #[trigger] s[i] <= '9'
}

/// A text without the sign that it begins with.
pub open spec fn unsigned(s: Seq<char>) -> Seq<char> {
    if s.len() > 0 && (s[0] == '+' || s[0] == '-') {
        s.skip(1)
    } else {
        s
    }
}

/// The first place of `a` or `b` at or after `i`, or the end.
pub open spec fn place_of(s: Seq<char>, a: char, b: char, i: int) -> int
    decreases s.len() - i,
{
    if i >= s.len() || s[i] == a || s[i] == b {
        i
    } else {
        place_of(s, a, b, i + 1)
    }
}

/// The parts of a number: what stands before the point, what stands after it, and the
/// exponent with its sign.
pub struct Parts {
    pub whole: Seq<char>,
    pub fraction: Seq<char>,
    pub exponent: Option<Seq<char>>,
}

/// The parts of a number. The exponent follows an `e`, small or capital.
pub open spec fn parts_of(s: Seq<char>) -> Parts {
    let u = unsigned(s);
    let e = place_of(u, 'e', 'E', 0);
    let m = u.take(e);
    let d = place_of(m, '.', '.', 0);
    Parts {
        whole: m.take(d),
        fraction: if d < m.len() {
            m.skip(d + 1)
        } else {
            Seq::empty()
        },
        exponent: if e < u.len() {
            Some(u.skip(e + 1))
        } else {
            None
        },
    }
}

/// The text is a number: digits with at most one point, a sign or none, and an integer
/// for an exponent or none.
pub open spec fn is_number(s: Seq<char>) -> bool {
    let p = parts_of(s);
    &&& all_digits(p.whole)
    &&& all_digits(p.fraction)
    &&& p.whole.len() + p.fraction.len() > 0
    &&& p.exponent matches Some(x) ==> unsigned(x).len() > 0 && all_digits(unsigned(x))
}

/// The first place at or after `i` that holds no zero, or the end.
pub open spec fn first_other(s: Seq<char>, i: int) -> int
    decreases s.len() - i,
{
    if 0 <= i < s.len() && s[i] == '0' {
        first_other(s, i + 1)
    } else {
        i
    }
}

/// By how many places an exponent moves the point to the right.
pub open spec fn shift_of(exponent: Option<Seq<char>>) -> int {
    match exponent {
        Some(x) => if x.len() > 0 && x[0] == '-' {
            -number(unsigned(x))
        } else {
            number(unsigned(x))
        },
        None => 0,
    }
}

/// The number has a finite value in single precision. Without the zeros that they begin
/// with, its digits stand for a fraction below one, moved by `place` places.
pub open spec fn has_finite_value(s: Seq<char>) -> bool {
    let p = parts_of(s);
    let digits = p.whole + p.fraction;
    let zeros = first_other(digits, 0);
    let place = p.whole.len() - zeros + shift_of(p.exponent);
    ||| zeros == digits.len()
    ||| place < 39
    ||| place == 39 && text_before(digits.skip(zeros), FIRST_INFINITE@)
}

/// The text is a number with a finite value.
pub open spec fn is_finite(s: Seq<char>) -> bool {
    is_number(s) && has_finite_value(s)
}

fn part(v: &Vec<char>, from: usize, to: usize) -> (r: Vec<char>)
    requires
        from <= to <= v@.len(),
    ensures
        r@ == v@.subrange(from as int, to as int),
{
    let mut out: Vec<char> = Vec::new();
    let mut i: usize = from;
    while i < to
        invariant
            from <= i <= to <= v@.len(),
            out@ == v@.subrange(from as int, i as int),
        decreases to - i,
    {
        out.push(v[i]);
        assert(out@ =~= v@.subrange(from as int, i + 1));
        i += 1;
    }
    out
}

fn without_sign(v: &Vec<char>) -> (r: Vec<char>)
    ensures
        r@ == unsigned(v@),
{
    let n: usize = v.len();
    if n > 0 && (v[0] == '+' || v[0] == '-') {
        part(v, 1, n)
    } else {
        let r = part(v, 0, n);
        assert(r@ =~= v@);
        r
    }
}

fn find(v: &Vec<char>, a: char, b: char) -> (r: usize)
    ensures
        r == place_of(v@, a, b, 0),
        r <= v@.len(),
{
    let mut i: usize = 0;
    while i < v.len() && v[i] != a && v[i] != b
        invariant
            i <= v@.len(),
            place_of(v@, a, b, 0) == place_of(v@, a, b, i as int),
        decreases v@.len() - i,
    {
        i += 1;
    }
    i
}

fn only_digits(v: &Vec<char>) -> (r: bool)
    ensures
        r == all_digits(v@),
{
    let mut i: usize = 0;
    while i < v.len()
        invariant
            i <= v@.len(),
            forall|k: int| 0 <= k < i ==> '0' <= #[trigger] v@[k] <= '9',
        decreases v@.len() - i,
    {
        if !('0' <= v[i] && v[i] <= '9') {
            return false;
        }
        i += 1;
    }
    true
}

/// An exponent from here on moves the point past every digit that a text can hold.
const FAR: i128 = 1000000000000000000000000000000;

/// The number that digits stand for; for one that is far, some number that is far.
fn near_number(v: &Vec<char>) -> (r: i128)
    requires
        v@.len() > 0,
        all_digits(v@),
    ensures
        number(v@) >= 0,
        number(v@) < FAR ==> r == number(v@),
        number(v@) >= FAR ==> r >= FAR,
        0 <= r <= 10 * FAR,
{
    let n: usize = v.len();
    let mut acc: i128 = v[0] as i128 - 48;
    let mut i: usize = 1;
    assert(v@.take(1).last() == v@[0]);
    while i < n
        invariant
            1 <= i <= n,
            n == v@.len(),
            all_digits(v@),
            number(v@.take(i as int)) >= 0,
            number(v@.take(i as int)) < FAR ==> acc == number(v@.take(i as int)),
            number(v@.take(i as int)) >= FAR ==> acc >= FAR,
            0 <= acc <= 10 * FAR,
        decreases n - i,
    {
        assert(v@.take(i + 1).drop_last() =~= v@.take(i as int));
        assert(v@.take(i + 1).last() == v@[i as int]);
        assert(digit_value(v@[i as int]) == v@[i as int] as int - 48);
        if acc < FAR {
            acc = acc * 10 + (v[i] as i128 - 48);
        }
        i += 1;
    }
    assert(v@.take(n as int) =~= v@);
    acc
}

fn leading_zeros(v: &Vec<char>) -> (r: usize)
    ensures
        r == first_other(v@, 0),
        r <= v@.len(),
{
    let mut i: usize = 0;
    while i < v.len() && v[i] == '0'
        invariant
            i <= v@.len(),
            first_other(v@, 0) == first_other(v@, i as int),
        decreases v@.len() - i,
    {
        i += 1;
    }
    i
}

/// Whether a text is a number with a finite value in single precision.
pub fn is_finite_number(s: &str) -> (r: bool)
    ensures
        r == is_finite(s@),
{
    let v = text::chars_of(s);
    let u = without_sign(&v);
    let n: usize = u.len();
    let e: usize = find(&u, 'e', 'E');
    let m = part(&u, 0, e);
    assert(m@ =~= u@.take(e as int));
    let size: usize = m.len();
    let d: usize = find(&m, '.', '.');
    let whole = part(&m, 0, d);
    assert(whole@ =~= m@.take(d as int));
    let fraction = if d < size {
        part(&m, d + 1, size)
    } else {
        Vec::new()
    };
    assert(fraction@ =~= parts_of(s@).fraction);
    if !only_digits(&whole) || !only_digits(&fraction) || (whole.len() == 0 && fraction.len()
        == 0) {
        return false;
    }
    let mut shift: i128 = 0;
    let ghost exact = shift_of(parts_of(s@).exponent);
    if e < n {
        let x = part(&u, e + 1, n);
        assert(x@ =~= u@.skip(e + 1));
        let places = without_sign(&x);
        if places.len() == 0 || !only_digits(&places) {
            return false;
        }
        let far: i128 = near_number(&places);
        shift = if x.len() > 0 && x[0] == '-' {
            -far
        } else {
            far
        };
    }
    assert(is_number(s@));
    assert(-FAR < exact < FAR ==> shift == exact);
    assert(exact >= FAR ==> shift >= FAR);
    assert(exact <= -FAR ==> shift <= -FAR);
    let before: usize = whole.len();
    let mut digits = whole;
    let mut rest = fraction;
    digits.append(&mut rest);
    let zeros: usize = leading_zeros(&digits);
    if zeros == digits.len() {
        return true;
    }
    let place: i128 = before as i128 - zeros as i128 + shift;
    if place < 39 {
        return true;
    }
    if place > 39 {
        return false;
    }
    let count: usize = digits.len();
    let significant = part(&digits, zeros, count);
    assert(significant@ =~= digits@.skip(zeros as int));
    order::is_text_before(&significant, &text::chars_of(FIRST_INFINITE))
}

proof fn lemma_place_of(s: Seq<char>, a: char, b: char, i: int, e: int)
    requires
        0 <= i <= e <= s.len(),
        forall|k: int| i <= k < e ==> #[trigger] s[k] != a && s[k] != b,
        e < s.len() ==> s[e] == a || s[e] == b,
    ensures
        place_of(s, a, b, i) == e,
    decreases e - i,
{
    if i < e {
        assert(s[i] != a && s[i] != b);
        lemma_place_of(s, a, b, i + 1, e);
    }
}

proof fn lemma_first_other(s: Seq<char>, i: int)
    requires
        0 <= i <= s.len(),
    ensures
        i <= first_other(s, i) <= s.len(),
    decreases s.len() - i,
{
    if i < s.len() && s[i] == '0' {
        lemma_first_other(s, i + 1);
    }
}

/// The parts of a number are what it was put together from.
pub proof fn numbers_are_cut_into_their_parts(
    sign: Seq<char>,
    whole: Seq<char>,
    fraction: Seq<char>,
    point: bool,
)
    requires
        sign.len() == 0 || sign == seq!['+'] || sign == seq!['-'],
        all_digits(whole),
        all_digits(fraction),
        !point ==> fraction.len() == 0,
        whole.len() + fraction.len() > 0,
    ensures
        ({
            let s = sign + whole + (if point {
                seq!['.']
            } else {
                Seq::empty()
            }) + fraction;
            &&& parts_of(s) == (Parts { whole, fraction, exponent: None })
            &&& is_number(s)
            &&& whole.len() < 39 ==> is_finite(s)
        }),
{
    let dot = if point {
        seq!['.']
    } else {
        Seq::<char>::empty()
    };
    let s = sign + whole + dot + fraction;
    let u = whole + dot + fraction;
    if sign.len() == 0 {
        assert(s =~= u);
        if whole.len() > 0 {
            assert(u[0] == whole[0]);
        } else {
            assert(u[0] == '.');
        }
        assert(unsigned(s) == u);
    } else {
        assert(s.skip(1) =~= u);
    }
    assert forall|k: int| 0 <= k < u.len() implies #[trigger] u[k] != 'e' && u[k] != 'E' by {
        if k < whole.len() {
            assert(u[k] == whole[k]);
        } else if k >= whole.len() + dot.len() {
            assert(u[k] == fraction[k - whole.len() - dot.len()]);
        }
    }
    lemma_place_of(u, 'e', 'E', 0, u.len() as int);
    assert(u.take(u.len() as int) =~= u);
    assert forall|k: int| 0 <= k < whole.len() implies #[trigger] u[k] != '.' by {
        assert(u[k] == whole[k]);
    }
    lemma_place_of(u, '.', '.', 0, whole.len() as int);
    assert(u.take(whole.len() as int) =~= whole);
    if point {
        assert(u.skip(whole.len() as int + 1) =~= fraction);
    } else {
        assert(fraction =~= Seq::<char>::empty());
    }
    assert(parts_of(s) == (Parts { whole, fraction, exponent: None }));
    lemma_first_other(whole + fraction, 0);
}

/// A number with an exponent has the value of its digits with the point moved: it is finite
/// where no more than 38 digits come to stand before the point.
pub proof fn exponents_move_the_point(whole: Seq<char>, minus: bool, power: Seq<char>, capital: bool)
    requires
        all_digits(whole),
        whole.len() > 0,
        all_digits(power),
        power.len() > 0,
        minus && whole.len() < 39 || !minus && whole.len() + number(power) < 39,
    ensures
        is_finite(
            whole + (if capital {
                seq!['E']
            } else {
                seq!['e']
            }) + (if minus {
                seq!['-']
            } else {
                Seq::empty()
            }) + power,
        ),
{
    let e = if capital {
        seq!['E']
    } else {
        seq!['e']
    };
    let sign = if minus {
        seq!['-']
    } else {
        Seq::<char>::empty()
    };
    let s = whole + e + sign + power;
    let x = sign + power;
    assert(s[0] == whole[0]);
    assert(unsigned(s) == s);
    assert forall|k: int| 0 <= k < whole.len() implies #[trigger] s[k] != 'e' && s[k] != 'E' by {
        assert(s[k] == whole[k]);
    }
    lemma_place_of(s, 'e', 'E', 0, whole.len() as int);
    assert(s.take(whole.len() as int) =~= whole);
    assert(s.skip(whole.len() as int + 1) =~= x);
    assert forall|k: int| 0 <= k < whole.len() implies #[trigger] whole[k] != '.' by {}
    lemma_place_of(whole, '.', '.', 0, whole.len() as int);
    assert(whole.take(whole.len() as int) =~= whole);
    if minus {
        assert(x[0] == '-');
        assert(unsigned(x) =~= power);
        lemma_number_is_not_negative(power);
    } else {
        assert(x =~= power);
        assert(x[0] == power[0]);
        assert(unsigned(x) =~= power);
    }
    assert(whole + Seq::<char>::empty() =~= whole);
    lemma_first_other(whole, 0);
}

proof fn lemma_number_is_not_negative(s: Seq<char>)
    requires
        all_digits(s),
        s.len() > 0,
    ensures
        number(s) >= 0,
    decreases s.len(),
{
    assert('0' <= s[s.len() - 1] <= '9');
    if s.len() > 1 {
        let d = s.drop_last();
        assert forall|i: int| 0 <= i < d.len() implies '0' <= #[trigger] d[i] <= '9' by {
            assert(d[i] == s[i]);
        }
        lemma_number_is_not_negative(d);
    }
}

/// A number that has 40 digits or more before its point, the first of which is no zero, has no
/// finite value.
pub proof fn long_numbers_are_not_finite(whole: Seq<char>)
    requires
        all_digits(whole),
        whole.len() >= 40,
        whole[0] != '0',
    ensures
        is_number(whole),
        !is_finite(whole),
{
    let none = Seq::<char>::empty();
    numbers_are_cut_into_their_parts(none, whole, none, false);
    assert(none + whole + none + none =~= whole);
    assert(whole + none =~= whole);
}

} // verus!
