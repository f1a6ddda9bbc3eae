//! Character-level text utilities shared by the converters: turning input
//! text into a character buffer, building output text, and splitting OASM
//! text into lines and whitespace-separated tokens.

use vstd::prelude::*;
use crate::table::OMC_ASCII_OFFSET;

verus! {

/// Relies on String::push: appends the given character to the string.
pub assume_specification[ String::push ](s: &mut String, c: char)
    ensures
        final(s)@ == old(s)@.push(c),
;

/// Relies on char::from_u32: `Some` exactly for unicode scalar values (at
/// most 0x10FFFF and not a surrogate), and the character returned carries
/// that value.
pub assume_specification[ char::from_u32 ](n: u32) -> (r: Option<char>)
    ensures
        r is Some <==> valid_char_value(n as int),
        r is Some ==> r->0 as u32 == n,
;

/// Whether an integer is a unicode scalar value, the set of `char` values.
pub open spec fn valid_char_value(n: int) -> bool {
    0 <= n <= 0xD7FF || 0xE000 <= n <= 0x10FFFF
}

/// Whether a numeric argument can be offset-encoded as a character.
pub open spec fn encodable(v: u32) -> bool {
    valid_char_value(v as int + OMC_ASCII_OFFSET)
}

/// The character that offset-encodes a numeric argument.
pub open spec fn enc_char(v: u32) -> char {
    ((v as int + OMC_ASCII_OFFSET) as char)
}

/// Offset-encodes a numeric argument as a character; fails where the
/// offset value is not a unicode scalar value: such a number cannot be
/// carried by the wire format and counts as malformed input.
pub fn enc_char_exec(v: u32) -> (r: Option<char>)
    ensures
        r is Some <==> encodable(v),
        r is Some ==> r->0 == enc_char(v),
{
    match v.checked_add(OMC_ASCII_OFFSET) {
        Some(w) => {
            let r = char::from_u32(w);
            proof {
                if valid_char_value(w as int) {
                    vstd::utf8::char_u32_cast(r->0, w);
                    assert(r->0 == enc_char(v));
                }
            }
            r
        },
        None => {
            assert(!encodable(v));
            None
        },
    }
}

/// The characters of a string, as a buffer.
pub fn str_to_chars(s: &str) -> (r: Vec<char>)
    ensures
        r@ == s@,
{
    let n = s.unicode_len();
    let mut r: Vec<char> = Vec::new();
    let mut i: usize = 0;
    while i < n
        invariant
            i <= n,
            n == s@.len(),
            r@ =~= s@.take(i as int),
        decreases n - i,
    {
        r.push(s.get_char(i));
        i = i + 1;
    }
    proof {
        assert(s@.take(n as int) =~= s@);
    }
    r
}

/// Appends a run of characters to a string.
pub fn push_chars(s: &mut String, v: &Vec<char>)
    ensures
        final(s)@ == old(s)@ + v@,
{
    let mut i: usize = 0;
    while i < v.len()
        invariant
            i <= v.len(),
            s@ =~= old(s)@ + v@.take(i as int),
        decreases v.len() - i,
    {
        s.push(v[i]);
        i = i + 1;
    }
    proof {
        assert(old(s)@ + v@.take(v@.len() as int) =~= old(s)@ + v@);
    }
}

/// Appends the decimal rendering of a number to a string.
pub fn push_u32_dec(s: &mut String, v: u32)
    ensures
        final(s)@ == old(s)@ + crate::numeral::dec_of(v as nat),
{
    let d = crate::numeral::u32_to_dec(v);
    push_chars(s, &d);
}

/// A copy of part of a buffer.
pub fn vec_slice(v: &Vec<char>, a: usize, b: usize) -> (r: Vec<char>)
    requires
        a <= b <= v@.len(),
    ensures
        r@ == v@.subrange(a as int, b as int),
{
    let mut r: Vec<char> = Vec::new();
    let mut i: usize = a;
    while i < b
        invariant
            a <= i <= b <= v@.len(),
            r@ =~= v@.subrange(a as int, i as int),
        decreases b - i,
    {
        r.push(v[i]);
        i = i + 1;
    }
    r
}

/// The position of the first occurrence of a character, or the sequence's
/// length where it does not occur.
pub open spec fn find_char(s: Seq<char>, c: char) -> nat
    decreases s.len(),
{
    if s.len() == 0 {
        0
    } else if s[0] == c {
        0
    } else {
        1 + find_char(s.skip(1), c)
    }
}

/// What `find_char` returns: an in-range position of the character with no
/// earlier occurrence, or the length where the character is absent.
pub proof fn lemma_find_char(s: Seq<char>, c: char)
    ensures
        find_char(s, c) <= s.len(),
        find_char(s, c) < s.len() ==> s[find_char(s, c) as int] == c,
        forall|j: int| 0 <= j < find_char(s, c) ==> s[j] != c,
    decreases s.len(),
{
    if s.len() > 0 && s[0] != c {
        lemma_find_char(s.skip(1), c);
        let r = find_char(s, c);
        assert forall|j: int| 0 <= j < r implies s[j] != c by {
            if j > 0 {
                assert(s.skip(1)[j - 1] == s[j]);
            }
        }
        if r < s.len() {
            assert(s.skip(1)[r - 1] == s[r as int]);
        }
    }
}

/// The first occurrence of a character at or after a position, or the
/// buffer's length where there is none.
pub fn find_char_exec(v: &Vec<char>, from: usize, c: char) -> (r: usize)
    requires
        from <= v@.len(),
    ensures
        r == from + find_char(v@.skip(from as int), c),
        r <= v@.len(),
{
    let mut i: usize = from;
    while i < v.len()
        invariant
            from <= i <= v@.len(),
            forall|j: int| from <= j < i ==> v@[j] != c,
        decreases v@.len() - i,
    {
        if v[i] == c {
            proof {
                let t = v@.skip(from as int);
                lemma_find_char(t, c);
                let f = find_char(t, c) as int;
                assert(forall|j: int| 0 <= j < t.len() ==> t[j] == v@[from + j]);
                assert(t[i - from] == c);
                if f < i - from {
                    assert(t[f] == c);
                    assert(v@[from + f] != c);
                }
                assert(f == i - from);
            }
            return i;
        }
        i = i + 1;
    }
    proof {
        let t = v@.skip(from as int);
        lemma_find_char(t, c);
        let f = find_char(t, c) as int;
        assert(forall|j: int| 0 <= j < t.len() ==> t[j] == v@[from + j]);
        if f < t.len() {
            assert(t[f] == c);
            assert(v@[from + f] != c);
        }
    }
    v.len()
}

/// A line with a single trailing carriage return removed, as the line
/// splitting of the standard library does at a line ending.
pub open spec fn strip_cr(l: Seq<char>) -> Seq<char> {
    if l.len() > 0 && l.last() == '\r' {
        l.drop_last()
    } else {
        l
    }
}

/// A line with leading blanks removed.
pub open spec fn trim_start(l: Seq<char>) -> Seq<char>
    decreases l.len(),
{
    if l.len() > 0 && (l[0] == ' ' || l[0] == '\t') {
        trim_start(l.skip(1))
    } else {
        l
    }
}

/// The position of the first character of a line that is not a blank.
pub fn trim_start_exec(v: &Vec<char>) -> (r: usize)
    ensures
        r <= v@.len(),
        v@.skip(r as int) == trim_start(v@),
{
    proof {
        assert(v@.skip(0) =~= v@);
    }
    let mut i: usize = 0;
    while i < v.len()
        invariant
            i <= v@.len(),
            trim_start(v@) == trim_start(v@.skip(i as int)),
        decreases v@.len() - i,
    {
        if v[i] != ' ' && v[i] != '\t' {
            proof {
                let t = v@.skip(i as int);
                assert(t[0] == v@[i as int]);
            }
            return i;
        }
        proof {
            let t = v@.skip(i as int);
            assert(t[0] == v@[i as int]);
            assert(t.skip(1) =~= v@.skip(i as int + 1));
        }
        i = i + 1;
    }
    proof {
        assert(v@.skip(v@.len() as int) =~= trim_start(v@.skip(v@.len() as int)));
    }
    v.len()
}

/// The whitespace-separated tokens of a line: split at every single space,
/// empty tokens kept, always at least one token.
pub open spec fn split_sp(l: Seq<char>) -> Seq<Seq<char>>
    decreases l.len(),
{
    let i = find_char(l, ' ') as int;
    if i >= l.len() {
        seq![l]
    } else {
        seq![l.take(i)] + split_sp(l.skip(i + 1))
    }
}

/// Splits a line at every single space, leading blanks removed first, as
/// the OASM tokenizer does. Empty tokens are kept, so runs of spaces
/// produce empty tokens.
pub fn tokenize(line: &Vec<char>) -> (r: Vec<Vec<char>>)
    ensures
        r@.map_values(|t: Vec<char>| t@) == split_sp(trim_start(line@)),
        r@.len() >= 1,
{
    let start = trim_start_exec(line);
    let ghost trimmed = line@.skip(start as int);
    let mut toks: Vec<Vec<char>> = Vec::new();
    let mut pos: usize = start;
    loop
        invariant_except_break
            start <= pos <= line@.len(),
            trimmed == line@.skip(start as int),
            split_sp(trimmed) == toks@.map_values(|t: Vec<char>| t@) + split_sp(
                line@.skip(pos as int),
            ),
        ensures
            toks@.map_values(|t: Vec<char>| t@) == split_sp(trimmed),
        decreases line@.len() - pos,
    {
        let j = find_char_exec(line, pos, ' ');
        let tok = vec_slice(line, pos, j);
        let ghost rem = line@.skip(pos as int);
        let ghost prev = toks@.map_values(|t: Vec<char>| t@);
        proof {
            lemma_find_char(rem, ' ');
            assert(rem.take(find_char(rem, ' ') as int) =~= line@.subrange(pos as int, j as int));
        }
        toks.push(tok);
        proof {
            assert(toks@.map_values(|t: Vec<char>| t@) =~= prev.push(tok@));
        }
        if j == line.len() {
            proof {
                assert(find_char(rem, ' ') == rem.len());
                assert(rem.take(rem.len() as int) =~= rem);
                assert(split_sp(rem) == seq![rem]);
                assert(prev.push(tok@) =~= prev + seq![rem]);
                assert(toks@.map_values(|t: Vec<char>| t@) =~= split_sp(trimmed));
            }
            break;
        }
        proof {
            assert(rem.skip(find_char(rem, ' ') as int + 1) =~= line@.skip(j as int + 1));
            assert(split_sp(rem) == seq![rem.take(find_char(rem, ' ') as int)] + split_sp(
                line@.skip(j as int + 1),
            ));
            assert(prev.push(tok@) + split_sp(line@.skip(j as int + 1)) =~= prev + split_sp(rem));
        }
        pos = j + 1;
    }
    proof {
        lemma_split_sp_len(trimmed);
        assert(toks@.map_values(|t: Vec<char>| t@).len() == toks@.len());
    }
    toks
}

/// A line always splits into at least one token.
pub proof fn lemma_split_sp_len(l: Seq<char>)
    ensures
        split_sp(l).len() >= 1,
    decreases l.len(),
{
    lemma_find_char(l, ' ');
    let i = find_char(l, ' ') as int;
    if i != l.len() {
        lemma_split_sp_len(l.skip(i + 1));
    }
}

} // verus!
