//! Decimal text for numeric arguments: rendering a number as digit
//! characters and reading a digit token back, with a proof that rendering
//! then reading returns the original number.

use vstd::prelude::*;
use vstd::arithmetic::div_mod::*;

verus! {

/// The decimal digit character for a value below ten.
pub open spec fn digit_char(d: nat) -> char {
    if d == 0 {
        '0'
    } else if d == 1 {
        '1'
    } else if d == 2 {
        '2'
    } else if d == 3 {
        '3'
    } else if d == 4 {
        '4'
    } else if d == 5 {
        '5'
    } else if d == 6 {
        '6'
    } else if d == 7 {
        '7'
    } else if d == 8 {
        '8'
    } else {
        '9'
    }
}

/// The value of a decimal digit character, `None` for any other character.
pub open spec fn digit_val(c: char) -> Option<nat> {
    if c == '0' {
        Some(0nat)
    } else if c == '1' {
        Some(1nat)
    } else if c == '2' {
        Some(2nat)
    } else if c == '3' {
        Some(3nat)
    } else if c == '4' {
        Some(4nat)
    } else if c == '5' {
        Some(5nat)
    } else if c == '6' {
        Some(6nat)
    } else if c == '7' {
        Some(7nat)
    } else if c == '8' {
        Some(8nat)
    } else if c == '9' {
        Some(9nat)
    } else {
        None
    }
}

/// The canonical decimal rendering of a number: no sign, no leading zeros
/// (a single `'0'` for zero).
pub open spec fn dec_of(v: nat) -> Seq<char>
    decreases v,
{
    if v < 10 {
        seq![digit_char(v)]
    } else {
        dec_of(v / 10).push(digit_char(v % 10))
    }
}

/// The number a digit string denotes, reading an empty string as zero;
/// `None` where some character is not a decimal digit.
pub open spec fn dec_val_raw(s: Seq<char>) -> Option<nat>
    decreases s.len(),
{
    if s.len() == 0 {
        Some(0nat)
    } else {
        match (dec_val_raw(s.drop_last()), digit_val(s.last())) {
            (Some(h), Some(d)) => Some(h * 10 + d),
            _ => None,
        }
    }
}

/// The number a non-empty digit string denotes; `None` for an empty string
/// or one holding a non-digit.
pub open spec fn dec_val(s: Seq<char>) -> Option<nat> {
    if s.len() == 0 {
        None
    } else {
        dec_val_raw(s)
    }
}

/// The number a token carries when it must fit the argument type: `None`
/// where the token is not all digits, is empty, or denotes too large a value.
pub open spec fn dec_val_u32(s: Seq<char>) -> Option<u32> {
    match dec_val(s) {
        Some(n) => if n <= u32::MAX { Some(n as u32) } else { None },
        None => None,
    }
}

/// A decimal rendering is never empty.
pub proof fn lemma_dec_of_nonempty(v: nat)
    ensures
        dec_of(v).len() >= 1,
    decreases v,
{
    if v >= 10 {
        lemma_dec_of_nonempty(v / 10);
    }
}

/// Every character of a decimal rendering is a digit.
pub proof fn lemma_dec_of_digits(v: nat)
    ensures
        forall|i: int| 0 <= i < dec_of(v).len() ==> digit_val(#[trigger] dec_of(v)[i]).is_some(),
    decreases v,
{
    if v >= 10 {
        lemma_dec_of_digits(v / 10);
    }
}

/// Reading back a decimal rendering returns the number it was made from.
pub proof fn lemma_dec_val_of_dec_of(v: nat)
    ensures
        dec_val(dec_of(v)) == Some(v),
    decreases v,
{
    lemma_dec_of_nonempty(v);
    if v < 10 {
        assert(dec_of(v).drop_last() =~= Seq::<char>::empty());
        assert(dec_val_raw(Seq::<char>::empty()) == Some(0nat));
        assert(dec_val_raw(dec_of(v)) == Some(v));
    } else {
        lemma_dec_val_of_dec_of(v / 10);
        lemma_dec_of_nonempty(v / 10);
        assert(dec_of(v).drop_last() =~= dec_of(v / 10));
        lemma_fundamental_div_mod(v as int, 10);
        assert(dec_val_raw(dec_of(v)) == Some(v));
    }
}

/// The decimal digit character for a value below ten.
pub fn digit_char_exec(d: u32) -> (c: char)
    requires
        d < 10,
    ensures
        c == digit_char(d as nat),
{
    match d {
        0 => '0',
        1 => '1',
        2 => '2',
        3 => '3',
        4 => '4',
        5 => '5',
        6 => '6',
        7 => '7',
        8 => '8',
        _ => '9',
    }
}

/// The value of a decimal digit character, `None` for any other character.
pub fn digit_val_exec(c: char) -> (r: Option<u32>)
    ensures
        r == match digit_val(c) {
            Some(d) => Some(d as u32),
            None => None::<u32>,
        },
{
    match c {
        '0' => Some(0),
        '1' => Some(1),
        '2' => Some(2),
        '3' => Some(3),
        '4' => Some(4),
        '5' => Some(5),
        '6' => Some(6),
        '7' => Some(7),
        '8' => Some(8),
        '9' => Some(9),
        _ => None,
    }
}

/// Renders a number in decimal.
pub fn u32_to_dec(v: u32) -> (r: Vec<char>)
    ensures
        r@ == dec_of(v as nat),
    decreases v,
{
    if v < 10 {
        let mut r: Vec<char> = Vec::new();
        r.push(digit_char_exec(v));
        assert(r@ =~= dec_of(v as nat));
        r
    } else {
        proof {
            lemma_div_decreases(v as int, 10);
        }
        let mut r = u32_to_dec(v / 10);
        r.push(digit_char_exec(v % 10));
        assert(r@ =~= dec_of(v as nat));
        r
    }
}

/// A digit string stays non-digit-bearing under extension: reading any
/// extension of a prefix that holds a non-digit fails too.
proof fn lemma_dec_val_raw_all_digits(s: Seq<char>)
    ensures
        dec_val_raw(s).is_some() ==> forall|i: int|
            0 <= i < s.len() ==> digit_val(#[trigger] s[i]).is_some(),
    decreases s.len(),
{
    if s.len() > 0 && dec_val_raw(s).is_some() {
        lemma_dec_val_raw_all_digits(s.drop_last());
        assert forall|i: int| 0 <= i < s.len() implies digit_val(#[trigger] s[i]).is_some() by {
            if i < s.len() - 1 {
                assert(s.drop_last()[i] == s[i]);
            } else {
                assert(s.last() == s[i]);
            }
        }
    }
}

/// Reads a decimal token; `None` where it is empty, holds a non-digit, or
/// denotes a value above `u32::MAX`.
pub fn parse_u32(t: &Vec<char>) -> (r: Option<u32>)
    ensures
        r == dec_val_u32(t@),
{
    if t.len() == 0 {
        return None;
    }
    let mut acc: Option<u32> = Some(0);
    let mut i: usize = 0;
    while i < t.len()
        invariant
            0 < t.len(),
            i <= t.len(),
            match dec_val_raw(t@.subrange(0, i as int)) {
                Some(n) => if n <= u32::MAX {
                    acc == Some(n as u32)
                } else {
                    acc.is_none()
                },
                None => false,
            },
        decreases t.len() - i,
    {
        let ghost prefix = t@.subrange(0, i as int);
        let ghost prefix2 = t@.subrange(0, i as int + 1);
        assert(prefix2.drop_last() =~= prefix);
        assert(prefix2.last() == t@[i as int]);
        let d = match digit_val_exec(t[i]) {
            Some(d) => d,
            None => {
                proof {
                    lemma_dec_val_raw_all_digits(t@);
                    assert(t@[i as int] == t@.subrange(0, t@.len() as int)[i as int]);
                }
                assert(dec_val_raw(t@).is_none());
                return None;
            },
        };
        acc = match acc {
            Some(a) => match a.checked_mul(10) {
                Some(m) => m.checked_add(d),
                None => None,
            },
            None => None,
        };
        i = i + 1;
    }
    assert(t@.subrange(0, t.len() as int) =~= t@);
    acc
}

} // verus!
