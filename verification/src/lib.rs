//! Bidirectional transcoder between three representations of a small
//! pen-drawing program: a compact character-encoded form ("OMC"), a
//! human-readable assembly form ("OASM"), and a generated script targeting a
//! host runtime ("JS codegen", intentionally partial).
//!
//! The wire format is fixed by two things alone: the order of the instruction
//! table (an instruction's position is its opcode) and the character offset by
//! which opcodes and numeric arguments are encoded.

pub mod error;
pub mod numeral;
pub mod table;
pub mod text;
pub mod decode;
pub mod encode;
pub mod jsgen;
pub mod laws;

pub use error::TranscodeError;
pub use table::{OpShape, get_oasm_map};
pub use decode::omc_to_oasm;
pub use encode::oasm_to_omc;
pub use jsgen::{oasm_to_js, omc_to_js};

use vstd::prelude::*;

verus! {

/// Converts OASM to OMC with the canonical instruction table.
pub fn oasm2omc(oasm: &str) -> (r: Result<String, TranscodeError>)
    ensures
        match r {
            Ok(s) => encode::encode_oasm(oasm@) == Ok::<_, TranscodeError>(s@),
            Err(e) => encode::encode_oasm(oasm@) == Err::<Seq<char>, _>(e),
        },
{
    let oasm_map = table::get_oasm_map();
    encode::oasm_to_omc(&oasm_map, oasm)
}

/// Converts OMC to OASM with the canonical instruction table.
pub fn omc2oasm(omc: &str) -> (r: Result<String, TranscodeError>)
    ensures
        match r {
            Ok(s) => decode::decode_omc(omc@) == Ok::<_, TranscodeError>(s@),
            Err(e) => decode::decode_omc(omc@) == Err::<Seq<char>, _>(e),
        },
{
    let oasm_map = table::get_oasm_map();
    decode::omc_to_oasm(&oasm_map, omc)
}

/// Lowers OASM to a generated script with the canonical instruction table.
pub fn oasm2js(oasm: &str) -> (r: Result<String, TranscodeError>)
    ensures
        match encode::encode_oasm(oasm@) {
            Err(e) => r == Err::<String, TranscodeError>(e),
            Ok(m) => match r {
                Ok(s) => jsgen::js_of_omc(m) == Ok::<_, TranscodeError>(s@),
                Err(e) => jsgen::js_of_omc(m) == Err::<Seq<char>, _>(e),
            },
        },
{
    let oasm_map = table::get_oasm_map();
    jsgen::oasm_to_js(&oasm_map, oasm)
}

/// Lowers OMC to a generated script with the canonical instruction table.
pub fn omc2js(omc: &str) -> (r: Result<String, TranscodeError>)
    ensures
        match r {
            Ok(s) => jsgen::js_of_omc(omc@) == Ok::<_, TranscodeError>(s@),
            Err(e) => jsgen::js_of_omc(omc@) == Err::<Seq<char>, _>(e),
        },
{
    let oasm_map = table::get_oasm_map();
    jsgen::omc_to_js(&oasm_map, omc)
}

} // verus!
