//! The instruction table. Its order is the wire format: an instruction's
//! position in the table is its opcode, and must never change.

use vstd::prelude::*;
use crate::error::TranscodeError;

verus! {

/// How many instructions the table defines.
pub const OMC_COMMAND_COUNT: usize = 37;

/// The fixed base by which opcodes and numeric arguments are offset when
/// they are encoded as characters.
pub const OMC_ASCII_OFFSET: u32 = 32;

/// How an opcode's arguments are laid out on the wire. The declared arity
/// understates the true footprint for three opcodes, which consume further
/// characters beyond their nominal argument count.
#[derive(Clone, Copy, Debug, PartialEq, Eq, Structural)]
pub enum OpShape {
    /// Exactly this many offset-encoded numeric argument characters.
    Fixed(u32),
    /// Two numeric arguments; the first selects a sub-form that consumes
    /// one or two further raw characters.
    GetExternalData,
    /// Three numeric arguments read as a variable slot and the two integer
    /// parts of a fractional literal.
    FloatLiteral,
    /// Two numeric arguments (slot and length), then that many raw payload
    /// characters.
    StringLiteral,
}

/// The mnemonic at a table position.
pub open spec fn mnemonic_of(op: int) -> Seq<char> {
    if op == 0 { "pend"@ }
    else if op == 1 { "penu"@ }
    else if op == 2 { "pene"@ }
    else if op == 3 { "totv"@ }
    else if op == 4 { "labl"@ }
    else if op == 5 { "jump"@ }
    else if op == 6 { "penc"@ }
    else if op == 7 { "pens"@ }
    else if op == 8 { "setx"@ }
    else if op == 9 { "sety"@ }
    else if op == 10 { "sinv"@ }
    else if op == 11 { "cosv"@ }
    else if op == 12 { "tanv"@ }
    else if op == 13 { "sqrt"@ }
    else if op == 14 { "setp"@ }
    else if op == 15 { "setv"@ }
    else if op == 16 { "svto"@ }
    else if op == 17 { "chav"@ }
    else if op == 18 { "subv"@ }
    else if op == 19 { "mulv"@ }
    else if op == 20 { "divv"@ }
    else if op == 21 { "modv"@ }
    else if op == 22 { "gthn"@ }
    else if op == 23 { "lthn"@ }
    else if op == 24 { "equl"@ }
    else if op == 25 { "ngth"@ }
    else if op == 26 { "nlth"@ }
    else if op == 27 { "svtf"@ }
    else if op == 28 { "svts"@ }
    else if op == 29 { "prnt"@ }
    else if op == 30 { "copy"@ }
    else if op == 31 { "leng"@ }
    else if op == 32 { "letr"@ }
    else if op == 33 { "join"@ }
    else if op == 34 { "jnws"@ }
    else if op == 35 { "neql"@ }
    else if op == 36 { "getd"@ }
    else { Seq::empty() }
}

/// The declared arity at a table position: the number of plain numeric
/// argument characters, before any opcode-specific extra packing.
pub open spec fn arity_of(op: int) -> u32 {
    if 0 <= op <= 2 { 0 }
    else if 3 <= op <= 13 { 1 }
    else if 14 <= op <= 21 { 2 }
    else if 22 <= op <= 27 { 3 }
    else if op == 28 { 2 }
    else if op == 29 { 1 }
    else if 30 <= op <= 31 { 2 }
    else if 32 <= op <= 35 { 3 }
    else if op == 36 { 2 }
    else { 0 }
}

/// The wire shape at a table position.
pub open spec fn shape_of(op: int) -> OpShape {
    if op == 27 { OpShape::FloatLiteral }
    else if op == 28 { OpShape::StringLiteral }
    else if op == 36 { OpShape::GetExternalData }
    else { OpShape::Fixed(arity_of(op)) }
}

/// The first table position carrying this mnemonic, if any.
pub open spec fn lookup_mn_from(name: Seq<char>, i: int) -> Option<int>
    decreases OMC_COMMAND_COUNT - i when 0 <= i <= OMC_COMMAND_COUNT
{
    if i >= OMC_COMMAND_COUNT {
        None
    } else if mnemonic_of(i) == name {
        Some(i)
    } else {
        lookup_mn_from(name, i + 1)
    }
}

/// The table position of a mnemonic, if any.
pub open spec fn lookup_mn(name: Seq<char>) -> Option<int> {
    lookup_mn_from(name, 0)
}

/// The table as the canonical ordered list of (mnemonic, declared arity).
pub open spec fn is_oasm_map(m: Seq<(String, u32)>) -> bool {
    &&& m.len() == OMC_COMMAND_COUNT
    &&& forall|i: int|
        0 <= i < OMC_COMMAND_COUNT ==> (#[trigger] m[i]).0@ == mnemonic_of(i) && m[i].1
            == arity_of(i)
}

/// The mnemonic at a table position.
pub fn mnemonic_exec(op: usize) -> (r: String)
    requires
        op < OMC_COMMAND_COUNT,
    ensures
        r@ == mnemonic_of(op as int),
{
    let s: &str = match op {
        0 => "pend",
        1 => "penu",
        2 => "pene",
        3 => "totv",
        4 => "labl",
        5 => "jump",
        6 => "penc",
        7 => "pens",
        8 => "setx",
        9 => "sety",
        10 => "sinv",
        11 => "cosv",
        12 => "tanv",
        13 => "sqrt",
        14 => "setp",
        15 => "setv",
        16 => "svto",
        17 => "chav",
        18 => "subv",
        19 => "mulv",
        20 => "divv",
        21 => "modv",
        22 => "gthn",
        23 => "lthn",
        24 => "equl",
        25 => "ngth",
        26 => "nlth",
        27 => "svtf",
        28 => "svts",
        29 => "prnt",
        30 => "copy",
        31 => "leng",
        32 => "letr",
        33 => "join",
        34 => "jnws",
        35 => "neql",
        _ => "getd",
    };
    String::from_str(s)
}

/// The declared arity at a table position.
pub fn arity_exec(op: usize) -> (r: u32)
    requires
        op < OMC_COMMAND_COUNT,
    ensures
        r == arity_of(op as int),
{
    if op <= 2 { 0 }
    else if op <= 13 { 1 }
    else if op <= 21 { 2 }
    else if op <= 27 { 3 }
    else if op == 28 { 2 }
    else if op == 29 { 1 }
    else if op <= 31 { 2 }
    else if op <= 35 { 3 }
    else { 2 }
}

/// The wire shape at a table position.
pub fn shape_exec(op: usize) -> (r: OpShape)
    requires
        op < OMC_COMMAND_COUNT,
    ensures
        r == shape_of(op as int),
{
    match op {
        27 => OpShape::FloatLiteral,
        28 => OpShape::StringLiteral,
        36 => OpShape::GetExternalData,
        _ => OpShape::Fixed(arity_exec(op)),
    }
}

/// The mappings for instructions: the canonical ordered list of
/// (mnemonic, declared arity) pairs.
pub fn get_oasm_map() -> (m: Vec<(String, u32)>)
    ensures
        is_oasm_map(m@),
{
    let mut m: Vec<(String, u32)> = Vec::new();
    let mut op: usize = 0;
    while op < OMC_COMMAND_COUNT
        invariant
            op <= OMC_COMMAND_COUNT,
            m@.len() == op,
            forall|i: int|
                0 <= i < op ==> (#[trigger] m@[i]).0@ == mnemonic_of(i) && m@[i].1 == arity_of(i),
        decreases OMC_COMMAND_COUNT - op,
    {
        m.push((mnemonic_exec(op), arity_exec(op)));
        op = op + 1;
    }
    m
}

/// Whether a character sequence equals a string's characters.
pub fn chars_eq_str(t: &Vec<char>, s: &str) -> (r: bool)
    ensures
        r == (t@ == s@),
{
    let n = s.unicode_len();
    if t.len() != n {
        assert(t@.len() != s@.len());
        return false;
    }
    let mut i: usize = 0;
    while i < n
        invariant
            i <= n,
            n == s@.len(),
            t@.len() == n,
            forall|j: int| 0 <= j < i ==> t@[j] == s@[j],
        decreases n - i,
    {
        if t[i] != s.get_char(i) {
            return false;
        }
        i = i + 1;
    }
    proof {
        assert(t@ =~= s@);
    }
    true
}

/// Looks an opcode up in the table; fails with `UnknownOpcode` when the
/// index is out of the table's range.
pub fn lookup_by_opcode(oasm_map: &Vec<(String, u32)>, code: usize) -> (r: Result<
    (String, u32),
    TranscodeError,
>)
    requires
        is_oasm_map(oasm_map@),
    ensures
        match r {
            Ok((name, argc)) => code < OMC_COMMAND_COUNT && name@ == mnemonic_of(code as int)
                && argc == arity_of(code as int),
            Err(e) => code >= OMC_COMMAND_COUNT && e == TranscodeError::UnknownOpcode,
        },
{
    if code >= OMC_COMMAND_COUNT {
        return Err(TranscodeError::UnknownOpcode);
    }
    let (name, argc) = &oasm_map[code];
    Ok((name.clone(), *argc))
}

/// Looks a mnemonic up in the table; fails with `UnknownMnemonic` when it is
/// not there. The failure is a distinguished value, never a sham index.
pub fn lookup_by_mnemonic(oasm_map: &Vec<(String, u32)>, name: &Vec<char>) -> (r: Result<
    usize,
    TranscodeError,
>)
    requires
        is_oasm_map(oasm_map@),
    ensures
        match r {
            Ok(op) => lookup_mn(name@) == Some(op as int) && op < OMC_COMMAND_COUNT,
            Err(e) => lookup_mn(name@) is None && e == TranscodeError::UnknownMnemonic,
        },
{
    let mut i: usize = 0;
    while i < OMC_COMMAND_COUNT
        invariant
            i <= OMC_COMMAND_COUNT,
            is_oasm_map(oasm_map@),
            lookup_mn(name@) == lookup_mn_from(name@, i as int),
        decreases OMC_COMMAND_COUNT - i,
    {
        if chars_eq_str(name, oasm_map[i].0.as_str()) {
            return Ok(i);
        }
        i = i + 1;
    }
    Err(TranscodeError::UnknownMnemonic)
}

} // verus!
