//! The OASM encoder: processes each line independently, tokenizes it on
//! whitespace, maps the mnemonic back to its opcode, and emits the
//! fixed-width character encoding, including the length-prefixed inline
//! string form.

use vstd::prelude::*;
use substring::Substring;
use crate::error::TranscodeError;
use crate::numeral::dec_val_u32;
use crate::table::{OpShape, is_oasm_map, lookup_by_mnemonic, lookup_mn, shape_exec, shape_of};
use crate::text::{
    enc_char, enc_char_exec, encodable, find_char, find_char_exec, lemma_find_char, push_chars,
    split_sp, str_to_chars, strip_cr, tokenize, trim_start, vec_slice,
};
use crate::decode::then_text;
use crate::numeral::parse_u32;

verus! {

/// Relies on substring::Substring::substring for str: with start index
/// zero it returns the characters up to the end index, by character count,
/// clamped to the string's length.
#[verifier::external_body]
fn take_prefix(s: &str, n: usize) -> (r: String)
    ensures
        r@ == s@.take(if n <= s@.len() { n as int } else { s@.len() as int }),
{
    String::from(s.substring(0, n))
}

/// The tokens of an inline string payload, rejoined with single spaces.
/// This assumes the literal's internal spaces match the single-space token
/// separator: runs of several spaces do not survive the round trip. That
/// fragility is part of the format, not to be repaired silently.
pub open spec fn join_sp(toks: Seq<Seq<char>>) -> Seq<char>
    decreases toks.len(),
{
    if toks.len() == 0 {
        Seq::empty()
    } else if toks.len() == 1 {
        toks[0]
    } else {
        toks[0] + seq![' '] + join_sp(toks.skip(1))
    }
}

/// The offset-encoded characters of the numeric argument tokens `k` up to
/// and including `n`, read left to right: underrun at the first missing
/// token, malformed at the first token that is not a small decimal number
/// or cannot be offset-encoded.
pub open spec fn encode_args_from(toks: Seq<Seq<char>>, k: int, n: int) -> Result<
    Seq<char>,
    TranscodeError,
>
    decreases n + 1 - k when k <= n + 1
{
    if k > n {
        Ok(Seq::empty())
    } else if k >= toks.len() {
        Err(TranscodeError::BufferUnderrun)
    } else {
        match dec_val_u32(toks[k]) {
            None => Err(TranscodeError::MalformedArgument),
            Some(v) => if !encodable(v) {
                Err(TranscodeError::MalformedArgument)
            } else {
                match encode_args_from(toks, k + 1, n) {
                    Ok(rest) => Ok(seq![enc_char(v)] + rest),
                    Err(e) => Err(e),
                }
            },
        }
    }
}

/// One encoded OASM line: the opcode character, then whatever the opcode's
/// wire shape asks for. A "get external data" line encodes as the opcode
/// character alone: the encoder does not support its argument forms.
pub open spec fn encode_line(l: Seq<char>) -> Result<Seq<char>, TranscodeError> {
    let toks = split_sp(trim_start(l));
    match lookup_mn(toks[0]) {
        None => Err(TranscodeError::UnknownMnemonic),
        Some(op) => {
            let opc = seq![enc_char(op as u32)];
            match shape_of(op) {
                OpShape::Fixed(n) => match encode_args_from(toks, 1, n as int) {
                    Ok(a) => Ok(opc + a),
                    Err(e) => Err(e),
                },
                OpShape::FloatLiteral => match encode_args_from(toks, 1, 3) {
                    Ok(a) => Ok(opc + a),
                    Err(e) => Err(e),
                },
                OpShape::GetExternalData => Ok(opc),
                OpShape::StringLiteral => if toks.len() < 3 {
                    Err(TranscodeError::BufferUnderrun)
                } else {
                    match (dec_val_u32(toks[1]), dec_val_u32(toks[2])) {
                        (Some(slot), Some(len)) => if !encodable(slot) || !encodable(len) {
                            Err(TranscodeError::MalformedArgument)
                        } else {
                            let joined = join_sp(toks.skip(3));
                            let cut = if len <= joined.len() {
                                len as int
                            } else {
                                joined.len() as int
                            };
                            Ok(opc + seq![enc_char(slot), enc_char(len)] + joined.take(cut))
                        },
                        _ => Err(TranscodeError::MalformedArgument),
                    }
                },
            }
        },
    }
}

/// The whole OASM encoding: each line of the text encoded in order, or the
/// first error met. Line endings follow the standard library's line
/// splitting: lines end at a newline or at the end of the text, and a
/// carriage return before a newline is dropped.
pub open spec fn encode_oasm(s: Seq<char>) -> Result<Seq<char>, TranscodeError>
    decreases s.len(),
{
    if s.len() == 0 {
        Ok(Seq::empty())
    } else {
        let i = find_char(s, '\n') as int;
        if i >= s.len() {
            encode_line(s)
        } else {
            match encode_line(strip_cr(s.take(i))) {
                Err(e) => Err(e),
                Ok(first) => then_text(first, encode_oasm(s.skip(i + 1))),
            }
        }
    }
}

/// Encodes the numeric argument tokens `1` up to and including `n` of a
/// tokenized line.
fn encode_args_exec(toks: &Vec<Vec<char>>, n: usize) -> (r: Result<String, TranscodeError>)
    ensures
        match r {
            Ok(s) => encode_args_from(toks@.map_values(|t: Vec<char>| t@), 1, n as int) == Ok::<
                _,
                TranscodeError,
            >(s@),
            Err(e) => encode_args_from(toks@.map_values(|t: Vec<char>| t@), 1, n as int) == Err::<
                Seq<char>,
                _,
            >(e),
        },
{
    let ghost tv = toks@.map_values(|t: Vec<char>| t@);
    let mut out = String::new();
    let mut k: usize = 1;
    proof {
        match encode_args_from(tv, 1, n as int) {
            Ok(rest) => {
                assert(out@ + rest =~= rest);
            },
            Err(_) => {},
        }
    }
    while k <= n
        invariant
            1 <= k <= n + 1,
            tv == toks@.map_values(|t: Vec<char>| t@),
            encode_args_from(tv, 1, n as int) == then_text(
                out@,
                encode_args_from(tv, k as int, n as int),
            ),
        decreases n + 1 - k,
    {
        if k >= toks.len() {
            return Err(TranscodeError::BufferUnderrun);
        }
        proof {
            assert(tv[k as int] == toks@[k as int]@);
        }
        let v = match parse_u32(&toks[k]) {
            Some(v) => v,
            None => {
                return Err(TranscodeError::MalformedArgument);
            },
        };
        let c = match enc_char_exec(v) {
            Some(c) => c,
            None => {
                return Err(TranscodeError::MalformedArgument);
            },
        };
        let ghost prev = out@;
        out.push(c);
        proof {
            match encode_args_from(tv, k as int + 1, n as int) {
                Ok(rest) => {
                    assert(prev + (seq![enc_char(v)] + rest) =~= out@ + rest);
                },
                Err(_) => {},
            }
        }
        k = k + 1;
    }
    proof {
        assert(encode_args_from(tv, k as int, n as int) == Ok::<_, TranscodeError>(
            Seq::<char>::empty(),
        ));
        assert(out@ + Seq::<char>::empty() =~= out@);
    }
    Ok(out)
}

/// Rejoins the tokens from position three on with single spaces, to
/// recover an inline string payload.
fn join_tokens_exec(toks: &Vec<Vec<char>>) -> (r: String)
    requires
        toks@.len() >= 3,
    ensures
        r@ == join_sp(toks@.map_values(|t: Vec<char>| t@).skip(3)),
{
    let ghost tv = toks@.map_values(|t: Vec<char>| t@);
    let mut joined = String::new();
    let mut k: usize = 3;
    proof {
        if tv.skip(3).len() == 0 {
            assert(joined@ + join_sp(tv.skip(3)) =~= join_sp(tv.skip(3)));
        } else {
            assert(joined@ + join_sp(tv.skip(3)) =~= join_sp(tv.skip(3)));
        }
    }
    while k < toks.len()
        invariant
            3 <= k <= toks@.len(),
            tv == toks@.map_values(|t: Vec<char>| t@),
            join_sp(tv.skip(3)) == joined@ + join_sp(tv.skip(k as int)),
        decreases toks@.len() - k,
    {
        proof {
            assert(tv[k as int] == toks@[k as int]@);
            assert(tv.skip(k as int)[0] == tv[k as int]);
            assert(tv.skip(k as int).skip(1) =~= tv.skip(k as int + 1));
        }
        let ghost prev = joined@;
        push_chars(&mut joined, &toks[k]);
        if k + 1 < toks.len() {
            joined.push(' ');
            proof {
                assert(tv.skip(k as int).len() > 1);
                assert(prev + (tv[k as int] + seq![' '] + join_sp(tv.skip(k as int + 1))) =~= joined@
                    + join_sp(tv.skip(k as int + 1)));
            }
        } else {
            proof {
                assert(tv.skip(k as int).len() == 1);
                assert(join_sp(tv.skip(k as int)) == tv[k as int]);
                assert(tv.skip(k as int + 1) =~= Seq::<Seq<char>>::empty());
                assert(prev + tv[k as int] =~= joined@);
                assert(joined@ + join_sp(tv.skip(k as int + 1)) =~= joined@);
            }
        }
        k = k + 1;
    }
    proof {
        if tv.skip(k as int).len() == 0 {
            assert(join_sp(tv.skip(k as int)) == Seq::<char>::empty());
            assert(joined@ + Seq::<char>::empty() =~= joined@);
        }
    }
    joined
}

/// Encodes one OASM line.
fn encode_line_exec(oasm_map: &Vec<(String, u32)>, line: &Vec<char>) -> (r: Result<
    String,
    TranscodeError,
>)
    requires
        is_oasm_map(oasm_map@),
    ensures
        match r {
            Ok(s) => encode_line(line@) == Ok::<_, TranscodeError>(s@),
            Err(e) => encode_line(line@) == Err::<Seq<char>, _>(e),
        },
{
    let toks = tokenize(line);
    let ghost tv = toks@.map_values(|t: Vec<char>| t@);
    proof {
        assert(tv[0] == toks@[0]@);
    }
    let op = match lookup_by_mnemonic(oasm_map, &toks[0]) {
        Ok(op) => op,
        Err(e) => {
            return Err(e);
        },
    };
    let opc = match enc_char_exec(op as u32) {
        Some(c) => c,
        None => {
            proof {
                assert(false);
            }
            return Err(TranscodeError::MalformedArgument);
        },
    };
    let mut out = String::new();
    out.push(opc);
    proof {
        assert(out@ =~= seq![enc_char(op as u32)]);
    }
    match shape_exec(op) {
        OpShape::Fixed(nn) => {
            let n = nn as usize;
            match encode_args_exec(&toks, n) {
                Ok(a) => {
                    out.append(a.as_str());
                    proof {
                        assert(out@ =~= seq![enc_char(op as u32)] + a@);
                    }
                    Ok(out)
                },
                Err(e) => Err(e),
            }
        },
        OpShape::FloatLiteral => {
            match encode_args_exec(&toks, 3) {
                Ok(a) => {
                    out.append(a.as_str());
                    proof {
                        assert(out@ =~= seq![enc_char(op as u32)] + a@);
                    }
                    Ok(out)
                },
                Err(e) => Err(e),
            }
        },
        OpShape::GetExternalData => Ok(out),
        OpShape::StringLiteral => {
            if toks.len() < 3 {
                return Err(TranscodeError::BufferUnderrun);
            }
            proof {
                assert(tv[1] == toks@[1]@);
                assert(tv[2] == toks@[2]@);
            }
            let slot = match parse_u32(&toks[1]) {
                Some(v) => v,
                None => {
                    return Err(TranscodeError::MalformedArgument);
                },
            };
            let lenv = match parse_u32(&toks[2]) {
                Some(v) => v,
                None => {
                    return Err(TranscodeError::MalformedArgument);
                },
            };
            let slot_c = match enc_char_exec(slot) {
                Some(c) => c,
                None => {
                    return Err(TranscodeError::MalformedArgument);
                },
            };
            let len_c = match enc_char_exec(lenv) {
                Some(c) => c,
                None => {
                    return Err(TranscodeError::MalformedArgument);
                },
            };
            let joined = join_tokens_exec(&toks);
            let payload = take_prefix(joined.as_str(), lenv as usize);
            out.push(slot_c);
            out.push(len_c);
            out.append(payload.as_str());
            proof {
                let cut = if lenv <= joined@.len() {
                    lenv as int
                } else {
                    joined@.len() as int
                };
                assert(payload@ == join_sp(tv.skip(3)).take(cut));
                assert(out@ =~= seq![enc_char(op as u32)] + seq![
                    enc_char(slot),
                    enc_char(lenv),
                ] + join_sp(tv.skip(3)).take(cut));
            }
            Ok(out)
        },
    }
}

/// Converts OASM to OMC, line by line, or returns the first error met.
pub fn oasm_to_omc(oasm_map: &Vec<(String, u32)>, oasm: &str) -> (r: Result<String, TranscodeError>)
    requires
        is_oasm_map(oasm_map@),
    ensures
        match r {
            Ok(s) => encode_oasm(oasm@) == Ok::<_, TranscodeError>(s@),
            Err(e) => encode_oasm(oasm@) == Err::<Seq<char>, _>(e),
        },
{
    let code = str_to_chars(oasm);
    let mut omc = String::new();
    let mut pos: usize = 0;
    proof {
        assert(code@.skip(0) =~= code@);
        match encode_oasm(code@) {
            Ok(rest) => {
                assert(omc@ + rest =~= rest);
            },
            Err(_) => {},
        }
    }
    while pos < code.len()
        invariant
            pos <= code@.len(),
            code@ == oasm@,
            is_oasm_map(oasm_map@),
            encode_oasm(oasm@) == then_text(omc@, encode_oasm(code@.skip(pos as int))),
        decreases code@.len() - pos,
    {
        let ghost rem = code@.skip(pos as int);
        let j = find_char_exec(&code, pos, '\n');
        proof {
            lemma_find_char(rem, '\n');
            assert(forall|x: int| 0 <= x < rem.len() ==> rem[x] == code@[pos + x]);
        }
        let found = j < code.len();
        let mut end = j;
        if found && end > pos && code[end - 1] == '\r' {
            end = end - 1;
        }
        let linev = vec_slice(&code, pos, end);
        proof {
            let i = find_char(rem, '\n') as int;
            if found {
                assert(rem.take(i) =~= code@.subrange(pos as int, j as int));
                if i > 0 && rem[i - 1] == '\r' {
                    assert(rem.take(i).last() == '\r');
                    assert(strip_cr(rem.take(i)) =~= code@.subrange(pos as int, j as int - 1));
                    assert(linev@ == strip_cr(rem.take(i)));
                } else {
                    if rem.take(i).len() > 0 {
                        assert(rem.take(i).last() == rem[i - 1]);
                    }
                    assert(strip_cr(rem.take(i)) == rem.take(i));
                    assert(linev@ == strip_cr(rem.take(i)));
                }
            } else {
                assert(linev@ =~= rem);
            }
        }
        match encode_line_exec(oasm_map, &linev) {
            Err(e) => {
                return Err(e);
            },
            Ok(piece) => {
                let ghost prev = omc@;
                omc.append(piece.as_str());
                proof {
                    let i = find_char(rem, '\n') as int;
                    if found {
                        assert(rem.skip(i + 1) =~= code@.skip(j as int + 1));
                        assert(encode_oasm(rem) == then_text(
                            piece@,
                            encode_oasm(code@.skip(j as int + 1)),
                        ));
                        match encode_oasm(code@.skip(j as int + 1)) {
                            Ok(rest) => {
                                assert(prev + (piece@ + rest) =~= omc@ + rest);
                            },
                            Err(_) => {},
                        }
                    } else {
                        assert(encode_oasm(rem) == Ok::<_, TranscodeError>(piece@));
                        assert(code@.skip(code@.len() as int) =~= Seq::<char>::empty());
                        assert(encode_oasm(Seq::<char>::empty()) == Ok::<_, TranscodeError>(
                            Seq::<char>::empty(),
                        ));
                        assert(prev + piece@ =~= omc@);
                        assert(omc@ + Seq::<char>::empty() =~= omc@);
                    }
                }
                if found {
                    pos = j + 1;
                } else {
                    pos = code.len();
                }
            },
        }
    }
    proof {
        assert(code@.skip(code@.len() as int) =~= Seq::<char>::empty());
        assert(encode_oasm(Seq::<char>::empty()) == Ok::<_, TranscodeError>(Seq::<char>::empty()));
        assert(omc@ + Seq::<char>::empty() =~= omc@);
    }
    Ok(omc)
}

} // verus!
