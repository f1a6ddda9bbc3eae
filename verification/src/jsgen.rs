//! The JS codegen: walks the OMC character stream directly and lowers a
//! subset of opcodes into one line of target-runtime API call text each,
//! wrapped once by a fixed prologue and epilogue. Opcodes with no lowering
//! yet are an explicit gap: they consume their wire footprint and emit
//! nothing.

use vstd::prelude::*;
use crate::error::TranscodeError;
use crate::numeral::dec_of;
use crate::table::{OMC_ASCII_OFFSET, OMC_COMMAND_COUNT, OpShape, is_oasm_map, shape_exec, shape_of};
use crate::text::{push_u32_dec, str_to_chars};
use crate::decode::{getd_line, then_text};

verus! {

/// The fixed text that opens the generated wrapper function.
pub open spec fn js_prologue() -> Seq<char> {
    "(function(runtime) {\n      const $util = {target: runtime.targets[1]}, $vars = {};"@
}

/// The fixed text that opens the generated wrapper function.
pub fn js_prologue_exec() -> (r: &'static str)
    ensures
        r@ == js_prologue(),
{
    "(function(runtime) {\n      const $util = {target: runtime.targets[1]}, $vars = {};"
}

/// The fixed text that closes the generated wrapper function.
pub open spec fn js_epilogue() -> Seq<char> {
    "\n})();"@
}

/// The fixed text that closes the generated wrapper function.
pub fn js_epilogue_exec() -> (r: &'static str)
    ensures
        r@ == js_epilogue(),
{
    "\n})();"
}

/// One character of an inline string literal, escaped for a single-quoted
/// JS string: backslashes and single quotes gain a backslash.
pub open spec fn esc_char(c: char) -> Seq<char> {
    if c == '\\' {
        seq!['\\', '\\']
    } else if c == '\'' {
        seq!['\\', '\'']
    } else {
        seq![c]
    }
}

/// An inline string literal escaped for a single-quoted JS string.
pub open spec fn js_escape(s: Seq<char>) -> Seq<char>
    decreases s.len(),
{
    if s.len() == 0 {
        Seq::empty()
    } else {
        js_escape(s.drop_last()) + esc_char(s.last())
    }
}

/// The statement a fixed-arity opcode lowers to, reading its argument
/// characters as raw character codes, or `None` where the opcode has no
/// lowering yet.
pub open spec fn js_fixed_stmt(op: int, t: Seq<char>) -> Option<Seq<char>> {
    if op == 0 {
        Some("runtime.ext_pen.penDown({}, $util)"@)
    } else if op == 1 {
        Some("runtime.ext_pen.penUp({}, $util)"@)
    } else if op == 2 {
        Some("runtime.ext_pen.clear()"@)
    } else if op == 6 {
        Some(
            "runtime.ext_pen.setPenColorToColor({ COLOR: $vars['"@ + dec_of(t[0] as u32 as nat)
                + "'] }, $util);"@,
        )
    } else if op == 8 {
        Some("$util.target.setXY($vars['"@ + dec_of(t[0] as u32 as nat) + "'], $util.target.y);"@)
    } else if op == 9 {
        Some("$util.target.setXY($util.target.x, $vars['"@ + dec_of(t[0] as u32 as nat) + "']);"@)
    } else if op == 10 {
        Some("$vars['"@ + dec_of(t[0] as u32 as nat) + "'] = Math.sin($vars['"@ + dec_of(
            t[0] as u32 as nat,
        ) + "']);"@)
    } else if op == 11 {
        Some("$vars['"@ + dec_of(t[0] as u32 as nat) + "'] = Math.cos($vars['"@ + dec_of(
            t[0] as u32 as nat,
        ) + "']);"@)
    } else if op == 12 {
        Some("$vars['"@ + dec_of(t[0] as u32 as nat) + "'] = Math.tan($vars['"@ + dec_of(
            t[0] as u32 as nat,
        ) + "']);"@)
    } else if op == 13 {
        Some("$vars['"@ + dec_of(t[0] as u32 as nat) + "'] = Math.sqrt($vars['"@ + dec_of(
            t[0] as u32 as nat,
        ) + "']);"@)
    } else if op == 14 {
        Some("$util.target.setXY($vars['"@ + dec_of(t[0] as u32 as nat) + "'], $vars['"@ + dec_of(
            t[1] as u32 as nat,
        ) + "']);"@)
    } else {
        None
    }
}

/// One lowered instruction: the statement it becomes, if any, and how many
/// characters past the opcode it consumes. Consumption follows the same
/// wire footprint as the decoder, so later instructions stay aligned.
pub open spec fn js_step(op: int, t: Seq<char>) -> Result<
    (Option<Seq<char>>, nat),
    TranscodeError,
> {
    match shape_of(op) {
        OpShape::Fixed(n) => if t.len() < n {
            Err(TranscodeError::BufferUnderrun)
        } else {
            Ok((js_fixed_stmt(op, t), n as nat))
        },
        OpShape::FloatLiteral => if t.len() < 3 {
            Err(TranscodeError::BufferUnderrun)
        } else {
            Ok(
                (
                    Some(
                        "$vars['"@ + dec_of(t[0] as u32 as nat) + "'] = "@ + dec_of(
                            t[1] as u32 as nat,
                        ) + seq!['.'] + dec_of(t[2] as u32 as nat) + seq![';'],
                    ),
                    3nat,
                ),
            )
        },
        OpShape::StringLiteral => if t.len() < 2 {
            Err(TranscodeError::BufferUnderrun)
        } else if (t[1] as u32) < OMC_ASCII_OFFSET {
            Err(TranscodeError::MalformedArgument)
        } else {
            let len = t[1] as u32 - OMC_ASCII_OFFSET;
            if t.len() < 2 + len {
                Err(TranscodeError::BufferUnderrun)
            } else {
                Ok(
                    (
                        Some(
                            "$vars['"@ + dec_of(t[0] as u32 as nat) + "'] = '"@ + js_escape(
                                t.subrange(2, 2 + len),
                            ) + "';"@,
                        ),
                        (2 + len) as nat,
                    ),
                )
            }
        },
        OpShape::GetExternalData => if t.len() < 2 {
            Err(TranscodeError::BufferUnderrun)
        } else if (t[0] as u32) < OMC_ASCII_OFFSET {
            Err(TranscodeError::MalformedArgument)
        } else {
            match getd_line((t[0] as u32 - OMC_ASCII_OFFSET) as u32, t) {
                Ok((_, k)) => Ok((None, k)),
                Err(e) => Err(e),
            }
        },
    }
}

/// The lowered statements of a whole OMC stream, one newline-terminated
/// line per supported instruction, in source order.
pub open spec fn js_body(s: Seq<char>) -> Result<Seq<char>, TranscodeError>
    decreases s.len(),
{
    if s.len() == 0 {
        Ok(Seq::empty())
    } else {
        let code: int = s[0] as u32 - OMC_ASCII_OFFSET;
        if !(0 <= code < OMC_COMMAND_COUNT) {
            Err(TranscodeError::UnknownOpcode)
        } else {
            match js_step(code, s.skip(1)) {
                Err(e) => Err(e),
                Ok((stmt, k)) => then_text(
                    match stmt {
                        Some(x) => x + seq!['\n'],
                        None => Seq::empty(),
                    },
                    js_body(s.skip(1 + k as int)),
                ),
            }
        }
    }
}

/// The whole generated script: the fixed prologue, the lowered statements,
/// and the fixed epilogue.
pub open spec fn js_of_omc(s: Seq<char>) -> Result<Seq<char>, TranscodeError> {
    match js_body(s) {
        Ok(b) => Ok(js_prologue() + b + js_epilogue()),
        Err(e) => Err(e),
    }
}

/// Lowers one instruction whose opcode character has already been
/// consumed: returns its statement, if the opcode has one, and the
/// position after the instruction.
fn js_instruction(code: &Vec<char>, pos: usize, op: usize) -> (r: Result<
    (Option<String>, usize),
    TranscodeError,
>)
    requires
        op < OMC_COMMAND_COUNT,
        pos <= code@.len(),
    ensures
        match r {
            Ok((stmt, newpos)) => pos <= newpos <= code@.len() && js_step(
                op as int,
                code@.skip(pos as int),
            ) == Ok::<_, TranscodeError>(
                (
                    match stmt {
                        Some(s) => Some(s@),
                        None => None::<Seq<char>>,
                    },
                    (newpos - pos) as nat,
                ),
            ),
            Err(e) => js_step(op as int, code@.skip(pos as int)) == Err::<
                (Option<Seq<char>>, nat),
                _,
            >(e),
        },
{
    let ghost t = code@.skip(pos as int);
    proof {
        assert(forall|j: int| 0 <= j < t.len() ==> t[j] == code@[pos + j]);
    }
    match shape_exec(op) {
        OpShape::Fixed(nn) => {
            let n = nn as usize;
            if code.len() - pos < n {
                return Err(TranscodeError::BufferUnderrun);
            }
            let stmt: Option<String> = if op == 0 {
                Some(String::from_str("runtime.ext_pen.penDown({}, $util)"))
            } else if op == 1 {
                Some(String::from_str("runtime.ext_pen.penUp({}, $util)"))
            } else if op == 2 {
                Some(String::from_str("runtime.ext_pen.clear()"))
            } else if op == 6 {
                let mut s = String::from_str("runtime.ext_pen.setPenColorToColor({ COLOR: $vars['");
                push_u32_dec(&mut s, code[pos] as u32);
                s.append("'] }, $util);");
                Some(s)
            } else if op == 8 {
                let mut s = String::from_str("$util.target.setXY($vars['");
                push_u32_dec(&mut s, code[pos] as u32);
                s.append("'], $util.target.y);");
                Some(s)
            } else if op == 9 {
                let mut s = String::from_str("$util.target.setXY($util.target.x, $vars['");
                push_u32_dec(&mut s, code[pos] as u32);
                s.append("']);");
                Some(s)
            } else if op == 10 || op == 11 || op == 12 || op == 13 {
                let mut s = String::from_str("$vars['");
                push_u32_dec(&mut s, code[pos] as u32);
                if op == 10 {
                    s.append("'] = Math.sin($vars['");
                } else if op == 11 {
                    s.append("'] = Math.cos($vars['");
                } else if op == 12 {
                    s.append("'] = Math.tan($vars['");
                } else {
                    s.append("'] = Math.sqrt($vars['");
                }
                push_u32_dec(&mut s, code[pos] as u32);
                s.append("']);");
                Some(s)
            } else if op == 14 {
                let mut s = String::from_str("$util.target.setXY($vars['");
                push_u32_dec(&mut s, code[pos] as u32);
                s.append("'], $vars['");
                push_u32_dec(&mut s, code[pos + 1] as u32);
                s.append("']);");
                Some(s)
            } else {
                None
            };
            proof {
                if 0 <= op < OMC_COMMAND_COUNT {
                    assert(js_fixed_stmt(op as int, t) == match stmt {
                        Some(s) => Some(s@),
                        None => None::<Seq<char>>,
                    });
                }
            }
            Ok((stmt, pos + n))
        },
        OpShape::FloatLiteral => {
            if code.len() - pos < 3 {
                return Err(TranscodeError::BufferUnderrun);
            }
            let mut s = String::from_str("$vars['");
            push_u32_dec(&mut s, code[pos] as u32);
            s.append("'] = ");
            push_u32_dec(&mut s, code[pos + 1] as u32);
            s.push('.');
            push_u32_dec(&mut s, code[pos + 2] as u32);
            s.push(';');
            proof {
                assert(s@ =~= "$vars['"@ + dec_of(t[0] as u32 as nat) + "'] = "@ + dec_of(
                    t[1] as u32 as nat,
                ) + seq!['.'] + dec_of(t[2] as u32 as nat) + seq![';']);
            }
            Ok((Some(s), pos + 3))
        },
        OpShape::StringLiteral => {
            if code.len() - pos < 2 {
                return Err(TranscodeError::BufferUnderrun);
            }
            let lc = code[pos + 1] as u32;
            if lc < OMC_ASCII_OFFSET {
                return Err(TranscodeError::MalformedArgument);
            }
            let len32 = lc - OMC_ASCII_OFFSET;
            if ((code.len() - pos - 2) as u64) < len32 as u64 {
                return Err(TranscodeError::BufferUnderrun);
            }
            let len = len32 as usize;
            let mut s = String::from_str("$vars['");
            push_u32_dec(&mut s, code[pos] as u32);
            s.append("'] = '");
            let ghost head = s@;
            let mut k: usize = 0;
            while k < len
                invariant
                    k <= len,
                    pos + 2 + len <= code@.len(),
                    code@.len() <= usize::MAX,
                    t == code@.skip(pos as int),
                    s@ == head + js_escape(t.subrange(2, 2 + k as int)),
                decreases len - k,
            {
                proof {
                    assert(t[2 + k as int] == code@[pos + 2 + k]);
                    let sub = t.subrange(2, 2 + k as int + 1);
                    assert(sub.drop_last() =~= t.subrange(2, 2 + k as int));
                    assert(sub.last() == t[2 + k as int]);
                }
                let c = code[pos + 2 + k];
                if c == '\\' {
                    s.push('\\');
                    s.push('\\');
                } else if c == '\'' {
                    s.push('\\');
                    s.push('\'');
                } else {
                    s.push(c);
                }
                proof {
                    assert(s@ =~= head + js_escape(t.subrange(2, 2 + k as int + 1)));
                }
                k = k + 1;
            }
            s.append("';");
            proof {
                assert(t.subrange(2, 2 + len32 as int) =~= t.subrange(2, 2 + len as int));
                assert(s@ =~= "$vars['"@ + dec_of(t[0] as u32 as nat) + "'] = '"@ + js_escape(
                    t.subrange(2, 2 + len32 as int),
                ) + "';"@);
            }
            Ok((Some(s), pos + 2 + len))
        },
        OpShape::GetExternalData => {
            if code.len() - pos < 2 {
                return Err(TranscodeError::BufferUnderrun);
            }
            let sc = code[pos] as u32;
            if sc < OMC_ASCII_OFFSET {
                return Err(TranscodeError::MalformedArgument);
            }
            let sel = sc - OMC_ASCII_OFFSET;
            if sel == 0 || sel == 5 {
                if code.len() - pos < 4 {
                    return Err(TranscodeError::BufferUnderrun);
                }
                Ok((None, pos + 4))
            } else if sel <= 4 {
                if code.len() - pos < 3 {
                    return Err(TranscodeError::BufferUnderrun);
                }
                Ok((None, pos + 3))
            } else {
                Ok((None, pos + 2))
            }
        },
    }
}

/// Lowers OMC to a generated script: the fixed prologue, one statement
/// line per supported instruction in source order, the fixed epilogue.
/// Instructions without a lowering consume their wire footprint and emit
/// nothing.
pub fn omc_to_js(oasm_map: &Vec<(String, u32)>, omc: &str) -> (r: Result<String, TranscodeError>)
    requires
        is_oasm_map(oasm_map@),
    ensures
        match r {
            Ok(s) => js_of_omc(omc@) == Ok::<_, TranscodeError>(s@),
            Err(e) => js_of_omc(omc@) == Err::<Seq<char>, _>(e),
        },
{
    let code = str_to_chars(omc);
    let mut body = String::new();
    let mut pos: usize = 0;
    proof {
        assert(code@.skip(0) =~= code@);
        match js_body(code@) {
            Ok(rest) => {
                assert(body@ + rest =~= rest);
            },
            Err(_) => {},
        }
    }
    while pos < code.len()
        invariant
            pos <= code@.len(),
            code@ == omc@,
            js_body(omc@) == then_text(body@, js_body(code@.skip(pos as int))),
        decreases code@.len() - pos,
    {
        let ghost t0 = code@.skip(pos as int);
        let c = code[pos];
        proof {
            assert(t0[0] == c);
        }
        let cv = c as u32;
        if cv < OMC_ASCII_OFFSET {
            return Err(TranscodeError::UnknownOpcode);
        }
        let op = (cv - OMC_ASCII_OFFSET) as usize;
        if op >= OMC_COMMAND_COUNT {
            return Err(TranscodeError::UnknownOpcode);
        }
        match js_instruction(&code, pos + 1, op) {
            Err(e) => {
                proof {
                    assert(t0.skip(1) =~= code@.skip(pos as int + 1));
                }
                return Err(e);
            },
            Ok((stmt, newpos)) => {
                let ghost prev = body@;
                let ghost piece = if stmt is Some {
                    stmt->0@ + seq!['\n']
                } else {
                    Seq::<char>::empty()
                };
                match &stmt {
                    Some(s) => {
                        body.append(s.as_str());
                        body.push('\n');
                    },
                    None => {},
                }
                proof {
                    assert(body@ =~= prev + piece);
                    assert(t0.skip(1) =~= code@.skip(pos as int + 1));
                    let k = (newpos - (pos + 1)) as nat;
                    assert(t0.skip(1 + k as int) =~= code@.skip(newpos as int));
                    assert(js_body(t0) == then_text(piece, js_body(code@.skip(newpos as int))));
                    match js_body(code@.skip(newpos as int)) {
                        Ok(rest) => {
                            assert(prev + (piece + rest) =~= body@ + rest);
                        },
                        Err(_) => {},
                    }
                }
                pos = newpos;
            },
        }
    }
    proof {
        assert(code@.skip(code@.len() as int) =~= Seq::<char>::empty());
        assert(js_body(Seq::<char>::empty()) == Ok::<_, TranscodeError>(Seq::<char>::empty()));
        assert(body@ + Seq::<char>::empty() =~= body@);
    }
    let mut js = String::from_str(js_prologue_exec());
    js.append(body.as_str());
    js.append(js_epilogue_exec());
    Ok(js)
}

/// Lowers OASM to a generated script, through OMC: the composition of the
/// OASM encoder and the OMC lowering.
pub fn oasm_to_js(oasm_map: &Vec<(String, u32)>, oasm: &str) -> (r: Result<String, TranscodeError>)
    requires
        is_oasm_map(oasm_map@),
    ensures
        match crate::encode::encode_oasm(oasm@) {
            Err(e) => r == Err::<String, TranscodeError>(e),
            Ok(m) => match r {
                Ok(s) => js_of_omc(m) == Ok::<_, TranscodeError>(s@),
                Err(e) => js_of_omc(m) == Err::<Seq<char>, _>(e),
            },
        },
{
    let omc = match crate::encode::oasm_to_omc(oasm_map, oasm) {
        Ok(m) => m,
        Err(e) => {
            return Err(e);
        },
    };
    omc_to_js(oasm_map, omc.as_str())
}

} // verus!

