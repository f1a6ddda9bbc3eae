//! The OMC decoder: walks the character stream one instruction at a time,
//! reads the declared arguments, applies the opcode-specific re-packing
//! rules, and emits one OASM line per instruction.

use vstd::prelude::*;
use crate::error::TranscodeError;
use crate::numeral::dec_of;
use crate::table::{
    OMC_ASCII_OFFSET, OMC_COMMAND_COUNT, OpShape, arity_of, is_oasm_map, mnemonic_of, shape_exec,
    shape_of,
};
use crate::text::{push_u32_dec, str_to_chars};

verus! {

/// The declared arguments at the front of the buffer: underrun where fewer
/// characters remain, malformed where a character lies below the offset.
pub open spec fn read_args(t: Seq<char>, n: int) -> Result<Seq<u32>, TranscodeError> {
    if t.len() < n {
        Err(TranscodeError::BufferUnderrun)
    } else if exists|i: int| 0 <= i < n && (t[i] as u32) < OMC_ASCII_OFFSET {
        Err(TranscodeError::MalformedArgument)
    } else {
        Ok(Seq::new(n as nat, |i: int| ((t[i] as u32 - OMC_ASCII_OFFSET) as u32)))
    }
}

/// Decimal argument tokens, each preceded by one space.
pub open spec fn args_text(args: Seq<u32>) -> Seq<char>
    decreases args.len(),
{
    if args.len() == 0 {
        Seq::empty()
    } else {
        args_text(args.drop_last()) + seq![' '] + dec_of(args.last() as nat)
    }
}

/// An OASM line of a mnemonic with plain numeric arguments.
pub open spec fn plain_line(op: int, args: Seq<u32>) -> Seq<char> {
    mnemonic_of(op) + args_text(args)
}

/// The "get external data" rewrite: the selector (the first declared
/// argument) picks a sub-form that renames the line and consumes one or two
/// further raw characters, printed as their raw character codes. The buffer
/// `t` starts at the two declared argument characters.
pub open spec fn getd_line(sel: u32, t: Seq<char>) -> Result<(Seq<char>, nat), TranscodeError> {
    if sel == 0 {
        if t.len() < 4 {
            Err(TranscodeError::BufferUnderrun)
        } else {
            Ok(
                (
                    "getd mousepos "@ + dec_of(t[2] as u32 as nat) + seq![' '] + dec_of(t[3] as u32 as nat),
                    4nat,
                ),
            )
        }
    } else if sel == 1 || sel == 2 || sel == 3 || sel == 4 {
        if t.len() < 3 {
            Err(TranscodeError::BufferUnderrun)
        } else {
            let name = if sel == 1 {
                "getd mouseclick "@
            } else if sel == 2 {
                "getd line "@
            } else if sel == 3 {
                "getd timer "@
            } else {
                "getd timestamp "@
            };
            Ok((name + dec_of(t[2] as u32 as nat), 3nat))
        }
    } else if sel == 5 {
        if t.len() < 4 {
            Err(TranscodeError::BufferUnderrun)
        } else {
            Ok(("getd key_"@ + seq![t[2]] + seq![' '] + dec_of(t[3] as u32 as nat), 4nat))
        }
    } else {
        Ok(("getd "@, 2nat))
    }
}

/// One decoded instruction: the OASM line it becomes and how many
/// characters past the opcode it consumes. The buffer `t` starts right
/// after the opcode character.
pub open spec fn decode_step(op: int, t: Seq<char>) -> Result<(Seq<char>, nat), TranscodeError> {
    match read_args(t, arity_of(op) as int) {
        Err(e) => Err(e),
        Ok(args) => match shape_of(op) {
            OpShape::Fixed(n) => Ok((plain_line(op, args), n as nat)),
            OpShape::FloatLiteral => Ok(
                (
                    "setv "@ + dec_of(args[0] as nat) + seq![' '] + dec_of(args[1] as nat)
                        + seq!['.'] + dec_of(args[2] as nat),
                    3nat,
                ),
            ),
            OpShape::StringLiteral => if t.len() < 2 + args[1] {
                Err(TranscodeError::BufferUnderrun)
            } else {
                Ok(
                    (
                        "setv "@ + dec_of(args[0] as nat) + seq![' '] + t.subrange(
                            2,
                            2 + args[1] as int,
                        ),
                        (2 + args[1]) as nat,
                    ),
                )
            },
            OpShape::GetExternalData => getd_line(args[0], t),
        },
    }
}

/// A result text with a prefix already emitted.
pub open spec fn then_text(prefix: Seq<char>, r: Result<Seq<char>, TranscodeError>) -> Result<
    Seq<char>,
    TranscodeError,
> {
    match r {
        Ok(rest) => Ok(prefix + rest),
        Err(e) => Err(e),
    }
}

/// The whole OMC decoding: the OASM text that an OMC character stream
/// denotes, one newline-terminated line per instruction, or the error that
/// aborts it.
pub open spec fn decode_omc(s: Seq<char>) -> Result<Seq<char>, TranscodeError>
    decreases s.len(),
{
    if s.len() == 0 {
        Ok(Seq::empty())
    } else {
        let code: int = s[0] as u32 - OMC_ASCII_OFFSET;
        if !(0 <= code < OMC_COMMAND_COUNT) {
            Err(TranscodeError::UnknownOpcode)
        } else {
            match decode_step(code, s.skip(1)) {
                Err(e) => Err(e),
                Ok((line, k)) => then_text(
                    line + seq!['\n'],
                    decode_omc(s.skip(1 + k as int)),
                ),
            }
        }
    }
}

/// Decodes one instruction whose opcode character has already been
/// consumed: returns the OASM line and the position after the instruction.
fn decode_instruction(oasm_map: &Vec<(String, u32)>, code: &Vec<char>, pos: usize, op: usize) -> (r:
    Result<(String, usize), TranscodeError>)
    requires
        is_oasm_map(oasm_map@),
        op < OMC_COMMAND_COUNT,
        pos <= code@.len(),
    ensures
        match r {
            Ok((line, newpos)) => pos <= newpos <= code@.len() && decode_step(
                op as int,
                code@.skip(pos as int),
            ) == Ok::<_, TranscodeError>((line@, (newpos - pos) as nat)),
            Err(e) => decode_step(op as int, code@.skip(pos as int)) == Err::<
                (Seq<char>, nat),
                _,
            >(e),
        },
{
    let ghost t = code@.skip(pos as int);
    proof {
        assert(forall|j: int| 0 <= j < t.len() ==> t[j] == code@[pos + j]);
    }
    let argc = oasm_map[op].1;
    let n = argc as usize;
    if code.len() - pos < n {
        return Err(TranscodeError::BufferUnderrun);
    }
    let mut line: String = oasm_map[op].0.clone();
    let mut args: Vec<u32> = Vec::new();
    let mut i: usize = 0;
    while i < n
        invariant
            i <= n,
            op < OMC_COMMAND_COUNT,
            n == arity_of(op as int),
            pos + n <= code@.len(),
            code@.len() <= usize::MAX,
            t == code@.skip(pos as int),
            args@.len() == i,
            forall|j: int| 0 <= j < i ==> (t[j] as u32) >= OMC_ASCII_OFFSET,
            forall|j: int| 0 <= j < i ==> args@[j] == ((t[j] as u32 - OMC_ASCII_OFFSET) as u32),
            line@ == mnemonic_of(op as int) + args_text(args@),
        decreases n - i,
    {
        proof {
            assert(t[i as int] == code@[pos + i]);
        }
        let c = code[pos + i];
        let cv = c as u32;
        if cv < OMC_ASCII_OFFSET {
            proof {
                assert(0 <= i < n as int && (t[i as int] as u32) < OMC_ASCII_OFFSET);
                assert(t.len() == code@.len() - pos);
                assert(read_args(t, n as int) == Err::<Seq<u32>, _>(
                    TranscodeError::MalformedArgument,
                ));
            }
            return Err(TranscodeError::MalformedArgument);
        }
        let v = cv - OMC_ASCII_OFFSET;
        let ghost prev_args = args@;
        args.push(v);
        line.push(' ');
        push_u32_dec(&mut line, v);
        proof {
            assert(args@.drop_last() =~= prev_args);
            assert(line@ == mnemonic_of(op as int) + args_text(args@));
        }
        i = i + 1;
    }
    let ghost argseq = args@;
    proof {
        assert(argseq =~= Seq::new(n as nat, |j: int| ((t[j] as u32 - OMC_ASCII_OFFSET) as u32)));
        assert(read_args(t, arity_of(op as int) as int) == Ok::<_, TranscodeError>(argseq));
    }
    match shape_exec(op) {
        OpShape::Fixed(_) => {
            proof {
                assert(decode_step(op as int, t) == Ok::<_, TranscodeError>((line@, n as nat)));
            }
            Ok((line, pos + n))
        },
        OpShape::FloatLiteral => {
            let mut line2 = String::from_str("setv ");
            push_u32_dec(&mut line2, args[0]);
            line2.push(' ');
            push_u32_dec(&mut line2, args[1]);
            line2.push('.');
            push_u32_dec(&mut line2, args[2]);
            proof {
                assert(line2@ =~= "setv "@ + dec_of(argseq[0] as nat) + seq![' '] + dec_of(
                    argseq[1] as nat,
                ) + seq!['.'] + dec_of(argseq[2] as nat));
            }
            Ok((line2, pos + 3))
        },
        OpShape::StringLiteral => {
            let len32 = args[1];
            if ((code.len() - pos - 2) as u64) < len32 as u64 {
                return Err(TranscodeError::BufferUnderrun);
            }
            let len = len32 as usize;
            let mut line2 = String::from_str("setv ");
            push_u32_dec(&mut line2, args[0]);
            line2.push(' ');
            let mut k: usize = 0;
            while k < len
                invariant
                    k <= len,
                    pos + 2 + len <= code@.len(),
                    code@.len() <= usize::MAX,
                    t == code@.skip(pos as int),
                    line2@ == "setv "@ + dec_of(argseq[0] as nat) + seq![' '] + t.subrange(
                        2,
                        2 + k as int,
                    ),
                decreases len - k,
            {
                proof {
                    assert(t[2 + k as int] == code@[pos + 2 + k]);
                    assert(t.subrange(2, 2 + k as int + 1) =~= t.subrange(2, 2 + k as int).push(
                        t[2 + k as int],
                    ));
                }
                line2.push(code[pos + 2 + k]);
                k = k + 1;
            }
            proof {
                assert(decode_step(op as int, t) == Ok::<_, TranscodeError>(
                    (line2@, (2 + argseq[1]) as nat),
                ));
            }
            Ok((line2, pos + 2 + len))
        },
        OpShape::GetExternalData => {
            let sel = args[0];
            if sel == 0 {
                if code.len() - pos < 4 {
                    return Err(TranscodeError::BufferUnderrun);
                }
                let mut line2 = String::from_str("getd mousepos ");
                proof {
                    assert(t[2] == code@[pos + 2]);
                    assert(t[3] == code@[pos + 3]);
                }
                push_u32_dec(&mut line2, code[pos + 2] as u32);
                line2.push(' ');
                push_u32_dec(&mut line2, code[pos + 3] as u32);
                proof {
                    assert(line2@ =~= "getd mousepos "@ + dec_of(t[2] as u32 as nat) + seq![' ']
                        + dec_of(t[3] as u32 as nat));
                }
                Ok((line2, pos + 4))
            } else if sel <= 4 {
                if code.len() - pos < 3 {
                    return Err(TranscodeError::BufferUnderrun);
                }
                let mut line2 = if sel == 1 {
                    String::from_str("getd mouseclick ")
                } else if sel == 2 {
                    String::from_str("getd line ")
                } else if sel == 3 {
                    String::from_str("getd timer ")
                } else {
                    String::from_str("getd timestamp ")
                };
                proof {
                    assert(t[2] == code@[pos + 2]);
                }
                push_u32_dec(&mut line2, code[pos + 2] as u32);
                proof {
                    assert(decode_step(op as int, t) == Ok::<_, TranscodeError>((line2@, 3nat)));
                }
                Ok((line2, pos + 3))
            } else if sel == 5 {
                if code.len() - pos < 4 {
                    return Err(TranscodeError::BufferUnderrun);
                }
                let mut line2 = String::from_str("getd key_");
                proof {
                    assert(t[2] == code@[pos + 2]);
                    assert(t[3] == code@[pos + 3]);
                }
                line2.push(code[pos + 2]);
                line2.push(' ');
                push_u32_dec(&mut line2, code[pos + 3] as u32);
                proof {
                    assert(line2@ =~= "getd key_"@ + seq![t[2]] + seq![' '] + dec_of(t[3] as u32 as nat));
                }
                Ok((line2, pos + 4))
            } else {
                Ok((String::from_str("getd "), pos + 2))
            }
        },
    }
}

/// Converts OMC to OASM: one newline-terminated OASM line per instruction,
/// in the order the instructions appear, or the first error met.
pub fn omc_to_oasm(oasm_map: &Vec<(String, u32)>, omc: &str) -> (r: Result<String, TranscodeError>)
    requires
        is_oasm_map(oasm_map@),
    ensures
        match r {
            Ok(s) => decode_omc(omc@) == Ok::<_, TranscodeError>(s@),
            Err(e) => decode_omc(omc@) == Err::<Seq<char>, _>(e),
        },
{
    let code = str_to_chars(omc);
    let mut oasm = String::new();
    let mut pos: usize = 0;
    proof {
        assert(code@.skip(0) =~= code@);
        match decode_omc(code@) {
            Ok(rest) => {
                assert(oasm@ + rest =~= rest);
            },
            Err(_) => {},
        }
    }
    while pos < code.len()
        invariant
            pos <= code@.len(),
            code@ == omc@,
            is_oasm_map(oasm_map@),
            decode_omc(omc@) == then_text(oasm@, decode_omc(code@.skip(pos as int))),
        decreases code@.len() - pos,
    {
        let ghost t0 = code@.skip(pos as int);
        let c = code[pos];
        proof {
            assert(t0[0] == c);
        }
        let cv = c as u32;
        if cv < OMC_ASCII_OFFSET {
            return Err(TranscodeError::UnknownOpcode);
        }
        let op = (cv - OMC_ASCII_OFFSET) as usize;
        if op >= OMC_COMMAND_COUNT {
            return Err(TranscodeError::UnknownOpcode);
        }
        match decode_instruction(oasm_map, &code, pos + 1, op) {
            Err(e) => {
                proof {
                    assert(t0.skip(1) =~= code@.skip(pos as int + 1));
                }
                return Err(e);
            },
            Ok((line, newpos)) => {
                let ghost prev = oasm@;
                oasm.append(line.as_str());
                oasm.push('\n');
                proof {
                    assert(t0.skip(1) =~= code@.skip(pos as int + 1));
                    let k = (newpos - (pos + 1)) as nat;
                    assert(decode_step(op as int, t0.skip(1)) == Ok::<_, TranscodeError>(
                        (line@, k),
                    ));
                    assert(t0.skip(1 + k as int) =~= code@.skip(newpos as int));
                    assert(decode_omc(t0) == then_text(
                        line@ + seq!['\n'],
                        decode_omc(code@.skip(newpos as int)),
                    ));
                    assert forall|rest: Seq<char>|
                        prev + (line@ + seq!['\n'] + rest) =~= oasm@ + rest by {}
                }
                pos = newpos;
            },
        }
    }
    proof {
        assert(code@.skip(code@.len() as int) =~= Seq::<char>::empty());
        assert(decode_omc(Seq::<char>::empty()) == Ok::<_, TranscodeError>(Seq::<char>::empty()));
        assert(oasm@ + Seq::<char>::empty() =~= oasm@);
    }
    Ok(oasm)
}

} // verus!
