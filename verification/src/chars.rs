//! What Unicode says of characters, by way of the standard library.

use vstd::prelude::*;

verus! {

/// What `char::is_uppercase` says.
pub uninterp spec fn uppercase(c: char) -> bool;

/// What `char::is_lowercase` says.
pub uninterp spec fn lowercase(c: char) -> bool;

/// What `char::is_alphanumeric` says.
pub uninterp spec fn alphanumeric(c: char) -> bool;

/// What `str::to_lowercase` gives.
pub uninterp spec fn lower_text(s: Seq<char>) -> Seq<char>;

/// `char::is_uppercase` depends on the character alone; among ASCII characters
/// it holds of `A` to `Z`.
pub assume_specification[ char::is_uppercase ](c: char) -> (r: bool)
    ensures
        r == uppercase(c),
        c <= '\u{7f}' ==> r == ('A' <= c <= 'Z'),
;

/// `char::is_lowercase` depends on the character alone; among ASCII characters
/// it holds of `a` to `z`.
pub assume_specification[ char::is_lowercase ](c: char) -> (r: bool)
    ensures
        r == lowercase(c),
        c <= '\u{7f}' ==> r == ('a' <= c <= 'z'),
;

/// `char::is_alphanumeric` depends on the character alone; among ASCII characters
/// it holds of letters and digits.
pub assume_specification[ char::is_alphanumeric ](c: char) -> (r: bool)
    ensures
        r == alphanumeric(c),
        c <= '\u{7f}' ==> r == ('0' <= c <= '9' || 'A' <= c <= 'Z' || 'a' <= c <= 'z'),
;

/// An ASCII capital as its small letter; other characters as they are.
pub open spec fn ascii_lower(c: char) -> char {
    if 'A' <= c <= 'Z' {
        (c as u8 + 32) as char
    } else {
        c
    }
}

/// `str::to_lowercase` depends on the text alone. An ASCII text has its capitals
/// replaced by small letters, one for one.
pub assume_specification[ str::to_lowercase ](s: &str) -> (r: String)
    ensures
        r@ == lower_text(s@),
        (forall|i: int| 0 <= i < s@.len() ==> #[trigger] s@[i] <= '\u{7f}') ==> r@ == s@.map_values(
            |c: char| ascii_lower(c),
        ),
;

/// An ASCII capital as its small letter; other characters as they are.
pub fn fold_ascii(c: char) -> (r: char)
    ensures
        r == ascii_lower(c),
{
    match c {
        'A' => 'a',
        'B' => 'b',
        'C' => 'c',
        'D' => 'd',
        'E' => 'e',
        'F' => 'f',
        'G' => 'g',
        'H' => 'h',
        'I' => 'i',
        'J' => 'j',
        'K' => 'k',
        'L' => 'l',
        'M' => 'm',
        'N' => 'n',
        'O' => 'o',
        'P' => 'p',
        'Q' => 'q',
        'R' => 'r',
        'S' => 's',
        'T' => 't',
        'U' => 'u',
        'V' => 'v',
        'W' => 'w',
        'X' => 'x',
        'Y' => 'y',
        'Z' => 'z',
        _ => c,
    }
}

/// A text with its ASCII capitals replaced by small letters.
pub fn lower_ascii(s: &str) -> (r: String)
    ensures
        r@ == s@.map_values(|c: char| ascii_lower(c)),
{
    let v = crate::text::chars_of(s);
    let mut out = String::new();
    let mut i: usize = 0;
    let ghost all = s@.map_values(|c: char| ascii_lower(c));
    assert(out@ =~= all.take(0));
    while i < v.len()
        invariant
            i <= v@.len(),
            v@ == s@,
            all == s@.map_values(|c: char| ascii_lower(c)),
            out@ == all.take(i as int),
        decreases v@.len() - i,
    {
        out.push(fold_ascii(v[i]));
        assert(out@ =~= all.take(i + 1));
        i += 1;
    }
    assert(all.take(i as int) =~= all);
    out
}

} // verus!
