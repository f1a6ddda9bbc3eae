use omc::{get_oasm_map, oasm2js, oasm2omc, oasm_to_omc, omc2js, omc2oasm, omc_to_oasm,
    TranscodeError};
use omc::table::{lookup_by_mnemonic, lookup_by_opcode};
use omc::numeral::{parse_u32, u32_to_dec};

#[test]
fn table_contents() {
    let map = get_oasm_map();
    assert_eq!(map.len(), 37);
    assert_eq!(map[0], (String::from("pend"), 0));
    assert_eq!(map[28], (String::from("svts"), 2));
    assert_eq!(map[36], (String::from("getd"), 2));
}

#[test]
fn lookup_by_opcode_bounds() {
    let map = get_oasm_map();
    assert_eq!(lookup_by_opcode(&map, 36), Ok((String::from("getd"), 2)));
    assert_eq!(lookup_by_opcode(&map, 37), Err(TranscodeError::UnknownOpcode));
}

#[test]
fn lookup_by_mnemonic_finds_and_fails() {
    let map = get_oasm_map();
    let name: Vec<char> = "svtf".chars().collect();
    assert_eq!(lookup_by_mnemonic(&map, &name), Ok(27));
    let bogus: Vec<char> = "bogus".chars().collect();
    assert_eq!(lookup_by_mnemonic(&map, &bogus), Err(TranscodeError::UnknownMnemonic));
}

#[test]
fn round_trip_uniform_program() {
    let program = "setp 1 2\npend\nsetx 5\n";
    let omc = oasm2omc(program).unwrap();
    assert_eq!(omc, ".!\" (%");
    let back = omc2oasm(&omc).unwrap();
    assert_eq!(back, program);
}

#[test]
fn round_trip_normalizes_whitespace() {
    let omc = oasm2omc("   setx 5").unwrap();
    assert_eq!(omc, "(%");
    assert_eq!(omc2oasm(&omc).unwrap(), "setx 5\n");
}

#[test]
fn round_trip_string_literal() {
    let omc = oasm2omc("svts 3 5 hello").unwrap();
    assert_eq!(omc, "<#%hello");
    assert_eq!(omc2oasm(&omc).unwrap(), "setv 3 hello\n");
}

#[test]
fn string_literal_payload_with_space() {
    let omc = oasm2omc("svts 3 4 a bc").unwrap();
    assert_eq!(omc, "<#$a bc");
    assert_eq!(omc2oasm(&omc).unwrap(), "setv 3 a bc\n");
}

#[test]
fn float_literal_assembles() {
    let omc = oasm2omc("svtf 1 12 34").unwrap();
    assert_eq!(omc, ";!,B");
    assert_eq!(omc2oasm(&omc).unwrap(), "setv 1 12.34\n");
}

#[test]
fn opcode_boundary() {
    // Opcode 36 is the last defined one; its character is 'D'.
    let decoded = omc2oasm("D\"!A").unwrap();
    assert_eq!(decoded, "getd line 65\n");
    // Opcode 37 is out of range; its character would be 'E'.
    assert_eq!(omc2oasm("E"), Err(TranscodeError::UnknownOpcode));
}

#[test]
fn getd_sub_forms() {
    // Selector 0: pointer position, two further raw characters.
    assert_eq!(omc2oasm("D !AB").unwrap(), "getd mousepos 65 66\n");
    // Selector 1: click state, one further raw character.
    assert_eq!(omc2oasm("D!!A").unwrap(), "getd mouseclick 65\n");
    // Selectors 2, 3, 4: generic numeric probes, one further raw character.
    assert_eq!(omc2oasm("D\"!A").unwrap(), "getd line 65\n");
    assert_eq!(omc2oasm("D#!A").unwrap(), "getd timer 65\n");
    assert_eq!(omc2oasm("D$!A").unwrap(), "getd timestamp 65\n");
    // Selector 5: keyboard probe, one raw key character and one numeric.
    assert_eq!(omc2oasm("D%!kA").unwrap(), "getd key_k 65\n");
}

#[test]
fn unknown_mnemonic_fails() {
    assert_eq!(oasm2omc("bogus 1 2"), Err(TranscodeError::UnknownMnemonic));
}

#[test]
fn missing_tokens_underrun() {
    assert_eq!(oasm2omc("setx"), Err(TranscodeError::BufferUnderrun));
    assert_eq!(oasm2omc("svts 3"), Err(TranscodeError::BufferUnderrun));
}

#[test]
fn malformed_argument_token() {
    assert_eq!(oasm2omc("setx abc"), Err(TranscodeError::MalformedArgument));
    assert_eq!(oasm2omc("setx 4294967296"), Err(TranscodeError::MalformedArgument));
}

#[test]
fn decoder_underrun_and_malformed() {
    // svto declares two arguments and none follow.
    assert_eq!(omc2oasm("0"), Err(TranscodeError::BufferUnderrun));
    // setx with an argument character below the offset.
    assert_eq!(omc2oasm("(\n"), Err(TranscodeError::MalformedArgument));
}

#[test]
fn map_taking_entry_points_match() {
    let map = get_oasm_map();
    let program = "pend\nsety 7\n";
    let omc = oasm_to_omc(&map, program).unwrap();
    assert_eq!(omc, " )'");
    assert_eq!(omc_to_oasm(&map, &omc).unwrap(), program);
}

#[test]
fn js_supported_and_skipped() {
    // pend lowers to one statement; gthn has no lowering and is skipped,
    // its three argument characters consumed.
    let js = omc2js(" 6!!!").unwrap();
    assert_eq!(
        js,
        "(function(runtime) {\n      const $util = {target: runtime.targets[1]}, $vars = {};runtime.ext_pen.penDown({}, $util)\n\n})();"
    );
}

#[test]
fn js_statements_in_source_order() {
    let js = oasm2js("pend\npenu\npene\n").unwrap();
    assert_eq!(
        js,
        "(function(runtime) {\n      const $util = {target: runtime.targets[1]}, $vars = {};runtime.ext_pen.penDown({}, $util)\nruntime.ext_pen.penUp({}, $util)\nruntime.ext_pen.clear()\n\n})();"
    );
}

#[test]
fn js_reads_raw_slots() {
    // setx reads its slot as a raw character code: '%' is 37.
    let js = omc2js("(%").unwrap();
    assert!(js.contains("$util.target.setXY($vars['37'], $util.target.y);\n"));
}

#[test]
fn js_string_literal_uses_carried_length() {
    // The literal's length comes from the instruction itself: five
    // characters, no more and no fewer.
    let js = omc2js("<#%hello").unwrap();
    assert!(js.contains("$vars['35'] = 'hello';\n"));
}

#[test]
fn js_escapes_quotes_and_backslashes() {
    let omc = oasm2omc("svts 3 4 a'\\b").unwrap();
    let js = omc2js(&omc).unwrap();
    assert!(js.contains("$vars['35'] = 'a\\'\\\\b';\n"));
}

#[test]
fn js_float_literal() {
    let js = omc2js(";!,B").unwrap();
    assert!(js.contains("$vars['33'] = 44.66;\n"));
}

#[test]
fn decimal_text_round_trip() {
    let digits = u32_to_dec(4294967295);
    let text: String = digits.iter().collect();
    assert_eq!(text, "4294967295");
    assert_eq!(parse_u32(&digits), Some(4294967295));
    let too_big: Vec<char> = "4294967296".chars().collect();
    assert_eq!(parse_u32(&too_big), None);
    let not_a_number: Vec<char> = "12a".chars().collect();
    assert_eq!(parse_u32(&not_a_number), None);
}

#[test]
fn empty_inputs() {
    assert_eq!(omc2oasm("").unwrap(), "");
    assert_eq!(oasm2omc("").unwrap(), "");
}

#[test]
fn string_literal_length_clamps_on_encode() {
    // The declared length exceeds the rejoined payload: the encoder clamps
    // to what is there, and the decoder then runs out of characters. This
    // fragility is part of the format.
    let omc = oasm2omc("svts 3 9 hi").unwrap();
    assert_eq!(omc, "<#)hi");
    assert_eq!(omc2oasm("<#)hi"), Err(TranscodeError::BufferUnderrun));
}

#[test]
fn empty_line_is_unknown_mnemonic() {
    assert_eq!(oasm2omc("pend\n\npend"), Err(TranscodeError::UnknownMnemonic));
}

#[test]
fn js_skips_getd_whole() {
    // A "get external data" instruction has no lowering: its whole wire
    // footprint is consumed and nothing is emitted.
    let js = omc2js("D\"!A").unwrap();
    assert_eq!(
        js,
        "(function(runtime) {\n      const $util = {target: runtime.targets[1]}, $vars = {};\n})();"
    );
}

#[test]
fn oasm_to_js_is_the_composition() {
    let map = get_oasm_map();
    let program = "pend\ngthn 1 2 3\n";
    let direct = omc::oasm_to_js(&map, program).unwrap();
    let omc_text = oasm2omc(program).unwrap();
    assert_eq!(direct, omc2js(&omc_text).unwrap());
}

#[test]
fn js_error_passes_through() {
    assert_eq!(omc2js("E"), Err(TranscodeError::UnknownOpcode));
    assert_eq!(oasm2js("bogus 1"), Err(TranscodeError::UnknownMnemonic));
}
