//! Laws the converters obey: what the JS codegen emits per opcode, and the
//! round trip between the OASM and OMC forms for uniform numeric
//! instructions.

use vstd::prelude::*;
use crate::decode::{args_text, decode_omc, decode_step, plain_line, read_args};
use crate::encode::{encode_args_from, encode_line, encode_oasm};
use crate::jsgen::{js_step, js_fixed_stmt};
use crate::numeral::{dec_of, dec_val_u32, digit_val, lemma_dec_of_digits,
    lemma_dec_of_nonempty, lemma_dec_val_of_dec_of};
use crate::table::{OMC_COMMAND_COUNT, OpShape, arity_of, lookup_mn, lookup_mn_from, mnemonic_of,
    shape_of};
use crate::text::{enc_char, encodable, find_char, lemma_find_char, split_sp, strip_cr,
    trim_start};

verus! {

/// The opcodes the JS codegen lowers today: the pen forms, the single-slot
/// colour, position and math forms, the two-slot position form, and the
/// two literal loaders.
pub open spec fn js_supported(op: int) -> bool {
    0 <= op <= 2 || op == 6 || 8 <= op <= 14 || op == 27 || op == 28
}

/// The JS codegen emits one statement for every opcode in its supported
/// subset and nothing at all for any other opcode: an instruction it
/// cannot lower yet is consumed and skipped, never half-lowered.
pub proof fn lemma_js_emits_iff_supported(op: int, t: Seq<char>)
    requires
        0 <= op < OMC_COMMAND_COUNT,
    ensures
        js_step(op, t) matches Ok((stmt, _)) ==> (stmt is Some <==> js_supported(op)),
{
    match shape_of(op) {
        OpShape::Fixed(n) => {
            if t.len() >= n {
                assert(js_step(op, t) == Ok::<_, crate::error::TranscodeError>(
                    (js_fixed_stmt(op, t), n as nat),
                ));
            }
        },
        _ => {},
    }
}

/// A line whose first token is no mnemonic of the table never encodes to
/// anything: it fails with the distinguished unknown-mnemonic error, not
/// with a silent no-op and not with a sham opcode.
pub proof fn lemma_unknown_mnemonic_fails(l: Seq<char>)
    requires
        lookup_mn(split_sp(trim_start(l))[0]) is None,
    ensures
        encode_line(l) == Err::<Seq<char>, crate::error::TranscodeError>(
            crate::error::TranscodeError::UnknownMnemonic,
        ),
{
}

/// No two table positions carry the same mnemonic; every mnemonic has
/// four characters, none of them a blank or a line ending.
#[verifier::rlimit(100)]
pub proof fn lemma_mnemonics_distinct()
    ensures
        forall|i: int, j: int|
            0 <= i < j < OMC_COMMAND_COUNT ==> mnemonic_of(i) != mnemonic_of(j),
        forall|op: int| 0 <= op < OMC_COMMAND_COUNT ==> (#[trigger] mnemonic_of(op)).len() == 4,
        forall|op: int, j: int|
            0 <= op < OMC_COMMAND_COUNT && 0 <= j < 4 ==> plain_char(
                #[trigger] mnemonic_of(op)[j],
            ),
{
    reveal_strlit("pend");
    reveal_strlit("penu");
    reveal_strlit("pene");
    reveal_strlit("totv");
    reveal_strlit("labl");
    reveal_strlit("jump");
    reveal_strlit("penc");
    reveal_strlit("pens");
    reveal_strlit("setx");
    reveal_strlit("sety");
    reveal_strlit("sinv");
    reveal_strlit("cosv");
    reveal_strlit("tanv");
    reveal_strlit("sqrt");
    reveal_strlit("setp");
    reveal_strlit("setv");
    reveal_strlit("svto");
    reveal_strlit("chav");
    reveal_strlit("subv");
    reveal_strlit("mulv");
    reveal_strlit("divv");
    reveal_strlit("modv");
    reveal_strlit("gthn");
    reveal_strlit("lthn");
    reveal_strlit("equl");
    reveal_strlit("ngth");
    reveal_strlit("nlth");
    reveal_strlit("svtf");
    reveal_strlit("svts");
    reveal_strlit("prnt");
    reveal_strlit("copy");
    reveal_strlit("leng");
    reveal_strlit("letr");
    reveal_strlit("join");
    reveal_strlit("jnws");
    reveal_strlit("neql");
    reveal_strlit("getd");
    assert("pend"@.len() == 4 && "pend"@[0] == 'p' && "pend"@[1] == 'e' && "pend"@[2] == 'n' && "pend"@[3] == 'd');
    assert("penu"@.len() == 4 && "penu"@[0] == 'p' && "penu"@[1] == 'e' && "penu"@[2] == 'n' && "penu"@[3] == 'u');
    assert("pene"@.len() == 4 && "pene"@[0] == 'p' && "pene"@[1] == 'e' && "pene"@[2] == 'n' && "pene"@[3] == 'e');
    assert("totv"@.len() == 4 && "totv"@[0] == 't' && "totv"@[1] == 'o' && "totv"@[2] == 't' && "totv"@[3] == 'v');
    assert("labl"@.len() == 4 && "labl"@[0] == 'l' && "labl"@[1] == 'a' && "labl"@[2] == 'b' && "labl"@[3] == 'l');
    assert("jump"@.len() == 4 && "jump"@[0] == 'j' && "jump"@[1] == 'u' && "jump"@[2] == 'm' && "jump"@[3] == 'p');
    assert("penc"@.len() == 4 && "penc"@[0] == 'p' && "penc"@[1] == 'e' && "penc"@[2] == 'n' && "penc"@[3] == 'c');
    assert("pens"@.len() == 4 && "pens"@[0] == 'p' && "pens"@[1] == 'e' && "pens"@[2] == 'n' && "pens"@[3] == 's');
    assert("setx"@.len() == 4 && "setx"@[0] == 's' && "setx"@[1] == 'e' && "setx"@[2] == 't' && "setx"@[3] == 'x');
    assert("sety"@.len() == 4 && "sety"@[0] == 's' && "sety"@[1] == 'e' && "sety"@[2] == 't' && "sety"@[3] == 'y');
    assert("sinv"@.len() == 4 && "sinv"@[0] == 's' && "sinv"@[1] == 'i' && "sinv"@[2] == 'n' && "sinv"@[3] == 'v');
    assert("cosv"@.len() == 4 && "cosv"@[0] == 'c' && "cosv"@[1] == 'o' && "cosv"@[2] == 's' && "cosv"@[3] == 'v');
    assert("tanv"@.len() == 4 && "tanv"@[0] == 't' && "tanv"@[1] == 'a' && "tanv"@[2] == 'n' && "tanv"@[3] == 'v');
    assert("sqrt"@.len() == 4 && "sqrt"@[0] == 's' && "sqrt"@[1] == 'q' && "sqrt"@[2] == 'r' && "sqrt"@[3] == 't');
    assert("setp"@.len() == 4 && "setp"@[0] == 's' && "setp"@[1] == 'e' && "setp"@[2] == 't' && "setp"@[3] == 'p');
    assert("setv"@.len() == 4 && "setv"@[0] == 's' && "setv"@[1] == 'e' && "setv"@[2] == 't' && "setv"@[3] == 'v');
    assert("svto"@.len() == 4 && "svto"@[0] == 's' && "svto"@[1] == 'v' && "svto"@[2] == 't' && "svto"@[3] == 'o');
    assert("chav"@.len() == 4 && "chav"@[0] == 'c' && "chav"@[1] == 'h' && "chav"@[2] == 'a' && "chav"@[3] == 'v');
    assert("subv"@.len() == 4 && "subv"@[0] == 's' && "subv"@[1] == 'u' && "subv"@[2] == 'b' && "subv"@[3] == 'v');
    assert("mulv"@.len() == 4 && "mulv"@[0] == 'm' && "mulv"@[1] == 'u' && "mulv"@[2] == 'l' && "mulv"@[3] == 'v');
    assert("divv"@.len() == 4 && "divv"@[0] == 'd' && "divv"@[1] == 'i' && "divv"@[2] == 'v' && "divv"@[3] == 'v');
    assert("modv"@.len() == 4 && "modv"@[0] == 'm' && "modv"@[1] == 'o' && "modv"@[2] == 'd' && "modv"@[3] == 'v');
    assert("gthn"@.len() == 4 && "gthn"@[0] == 'g' && "gthn"@[1] == 't' && "gthn"@[2] == 'h' && "gthn"@[3] == 'n');
    assert("lthn"@.len() == 4 && "lthn"@[0] == 'l' && "lthn"@[1] == 't' && "lthn"@[2] == 'h' && "lthn"@[3] == 'n');
    assert("equl"@.len() == 4 && "equl"@[0] == 'e' && "equl"@[1] == 'q' && "equl"@[2] == 'u' && "equl"@[3] == 'l');
    assert("ngth"@.len() == 4 && "ngth"@[0] == 'n' && "ngth"@[1] == 'g' && "ngth"@[2] == 't' && "ngth"@[3] == 'h');
    assert("nlth"@.len() == 4 && "nlth"@[0] == 'n' && "nlth"@[1] == 'l' && "nlth"@[2] == 't' && "nlth"@[3] == 'h');
    assert("svtf"@.len() == 4 && "svtf"@[0] == 's' && "svtf"@[1] == 'v' && "svtf"@[2] == 't' && "svtf"@[3] == 'f');
    assert("svts"@.len() == 4 && "svts"@[0] == 's' && "svts"@[1] == 'v' && "svts"@[2] == 't' && "svts"@[3] == 's');
    assert("prnt"@.len() == 4 && "prnt"@[0] == 'p' && "prnt"@[1] == 'r' && "prnt"@[2] == 'n' && "prnt"@[3] == 't');
    assert("copy"@.len() == 4 && "copy"@[0] == 'c' && "copy"@[1] == 'o' && "copy"@[2] == 'p' && "copy"@[3] == 'y');
    assert("leng"@.len() == 4 && "leng"@[0] == 'l' && "leng"@[1] == 'e' && "leng"@[2] == 'n' && "leng"@[3] == 'g');
    assert("letr"@.len() == 4 && "letr"@[0] == 'l' && "letr"@[1] == 'e' && "letr"@[2] == 't' && "letr"@[3] == 'r');
    assert("join"@.len() == 4 && "join"@[0] == 'j' && "join"@[1] == 'o' && "join"@[2] == 'i' && "join"@[3] == 'n');
    assert("jnws"@.len() == 4 && "jnws"@[0] == 'j' && "jnws"@[1] == 'n' && "jnws"@[2] == 'w' && "jnws"@[3] == 's');
    assert("neql"@.len() == 4 && "neql"@[0] == 'n' && "neql"@[1] == 'e' && "neql"@[2] == 'q' && "neql"@[3] == 'l');
    assert("getd"@.len() == 4 && "getd"@[0] == 'g' && "getd"@[1] == 'e' && "getd"@[2] == 't' && "getd"@[3] == 'd');
}

/// A mnemonic that sits at one position and at no earlier one from `i` on
/// is found exactly there.
proof fn lemma_lookup_from_finds(name: Seq<char>, i: int, op: int)
    requires
        0 <= i <= op < OMC_COMMAND_COUNT,
        mnemonic_of(op) == name,
        forall|j: int| i <= j < op ==> mnemonic_of(j) != name,
    ensures
        lookup_mn_from(name, i) == Some(op),
    decreases op - i,
{
    if i < op {
        lemma_lookup_from_finds(name, i + 1, op);
    }
}

/// Every defined mnemonic is found in the table at its own opcode: looking
/// the mnemonic of an opcode up returns that opcode, never another table
/// position and never the not-found sentinel.
pub proof fn lemma_lookup_of_mnemonic(op: int)
    requires
        0 <= op < OMC_COMMAND_COUNT,
    ensures
        lookup_mn(mnemonic_of(op)) == Some(op),
{
    lemma_mnemonics_distinct();
    lemma_lookup_from_finds(mnemonic_of(op), 0, op);
}

// The round trip between the OASM and OMC forms, for programs built only
// from instructions with uniform numeric arguments.

/// A character that never collides with the OASM text structure: not a
/// token separator, not a blank, not a line ending.
pub open spec fn plain_char(c: char) -> bool {
    c != ' ' && c != '\t' && c != '\n' && c != '\r'
}

/// An instruction with uniform numeric arguments: a fixed-arity opcode
/// whose arguments all fit the offset encoding.
pub open spec fn uniform_instr(op: int, args: Seq<u32>) -> bool {
    &&& 0 <= op < OMC_COMMAND_COUNT
    &&& shape_of(op) == OpShape::Fixed(arity_of(op))
    &&& args.len() == arity_of(op)
    &&& forall|i: int| 0 <= i < args.len() ==> encodable(#[trigger] args[i])
}

/// The canonical OASM text of a program: one line per instruction, single
/// spaces, a newline after every line.
pub open spec fn render_program(prog: Seq<(int, Seq<u32>)>) -> Seq<char>
    decreases prog.len(),
{
    if prog.len() == 0 {
        Seq::empty()
    } else {
        plain_line(prog[0].0, prog[0].1) + seq!['\n'] + render_program(prog.skip(1))
    }
}

/// The offset-encoded characters of a run of numeric arguments.
pub open spec fn enc_args(args: Seq<u32>) -> Seq<char> {
    Seq::new(args.len(), |i: int| enc_char(args[i]))
}

/// The OMC text of a program: one opcode character and the encoded
/// arguments per instruction.
pub open spec fn enc_program(prog: Seq<(int, Seq<u32>)>) -> Seq<char>
    decreases prog.len(),
{
    if prog.len() == 0 {
        Seq::empty()
    } else {
        seq![enc_char(prog[0].0 as u32)] + enc_args(prog[0].1) + enc_program(prog.skip(1))
    }
}

/// Where a prefix is free of a character and that character follows it,
/// the first occurrence is right after the prefix.
proof fn lemma_find_char_concat(w: Seq<char>, rest: Seq<char>, c: char)
    requires
        forall|i: int| 0 <= i < w.len() ==> w[i] != c,
    ensures
        find_char(w + seq![c] + rest, c) == w.len(),
{
    let s = w + seq![c] + rest;
    lemma_find_char(s, c);
    let f = find_char(s, c) as int;
    assert(s[w.len() as int] == c);
    if f < w.len() {
        assert(s[f] == w[f]);
    }
}

/// A sequence free of a character has no first occurrence before its end.
proof fn lemma_find_char_none(w: Seq<char>, c: char)
    requires
        forall|i: int| 0 <= i < w.len() ==> w[i] != c,
    ensures
        find_char(w, c) == w.len(),
{
    lemma_find_char(w, c);
    let f = find_char(w, c) as int;
    if f < w.len() {
        assert(w[f] == c);
    }
}

/// A line without separators is a single token.
proof fn lemma_split_sp_nosep(w: Seq<char>)
    requires
        forall|i: int| 0 <= i < w.len() ==> w[i] != ' ',
    ensures
        split_sp(w) == seq![w],
{
    lemma_find_char_none(w, ' ');
}

/// Splitting takes the separator-free head as the first token.
proof fn lemma_split_sp_head(w: Seq<char>, rest: Seq<char>)
    requires
        forall|i: int| 0 <= i < w.len() ==> w[i] != ' ',
    ensures
        split_sp(w + seq![' '] + rest) == seq![w] + split_sp(rest),
{
    let s = w + seq![' '] + rest;
    lemma_find_char_concat(w, rest, ' ');
    assert(s.take(w.len() as int) =~= w);
    assert(s.skip(w.len() as int + 1) =~= rest);
}

/// The argument text decomposes from the left: one separator, the first
/// argument's digits, then the rest.
proof fn lemma_args_text_left(args: Seq<u32>)
    requires
        args.len() > 0,
    ensures
        args_text(args) == seq![' '] + dec_of(args[0] as nat) + args_text(args.skip(1)),
    decreases args.len(),
{
    if args.len() == 1 {
        assert(args.drop_last() =~= Seq::<u32>::empty());
        assert(args.skip(1) =~= Seq::<u32>::empty());
        assert(args_text(args) =~= seq![' '] + dec_of(args[0] as nat) + args_text(args.skip(1)));
    } else {
        let dl = args.drop_last();
        lemma_args_text_left(dl);
        assert(dl[0] == args[0]);
        assert(args.skip(1).drop_last() =~= dl.skip(1));
        assert(args.skip(1).last() == args.last());
        assert(args.skip(1).len() > 0);
        assert(args_text(args.skip(1)) == args_text(dl.skip(1)) + seq![' '] + dec_of(
            args.last() as nat,
        ));
        assert(args_text(args) =~= seq![' '] + dec_of(args[0] as nat) + args_text(args.skip(1)));
    }
}

/// Every character of the argument text is a separator or a digit.
proof fn lemma_args_text_chars(args: Seq<u32>)
    ensures
        forall|i: int|
            0 <= i < args_text(args).len() ==> (#[trigger] args_text(args)[i] == ' ' || digit_val(
                args_text(args)[i],
            ).is_some()),
    decreases args.len(),
{
    if args.len() > 0 {
        lemma_args_text_chars(args.drop_last());
        lemma_dec_of_digits(args.last() as nat);
        let head = args_text(args.drop_last());
        let tail = dec_of(args.last() as nat);
        assert forall|i: int|
            0 <= i < args_text(args).len() implies (#[trigger] args_text(args)[i] == ' '
            || digit_val(args_text(args)[i]).is_some()) by {
            if i < head.len() {
                assert(args_text(args)[i] == head[i]);
            } else if i == head.len() {
                assert(args_text(args)[i] == ' ');
            } else {
                assert(args_text(args)[i] == tail[i - head.len() - 1]);
            }
        }
    }
}

/// The tokens of a rendered uniform line: the mnemonic, then one decimal
/// token per argument.
proof fn lemma_split_text(w: Seq<char>, args: Seq<u32>)
    requires
        w.len() > 0,
        forall|i: int| 0 <= i < w.len() ==> w[i] != ' ',
    ensures
        split_sp(w + args_text(args)) == seq![w] + Seq::new(
            args.len(),
            |i: int| dec_of(args[i] as nat),
        ),
    decreases args.len(),
{
    if args.len() == 0 {
        assert(w + args_text(args) =~= w);
        lemma_split_sp_nosep(w);
        assert(seq![w] + Seq::new(0, |i: int| dec_of(args[i] as nat)) =~= seq![w]);
    } else {
        lemma_args_text_left(args);
        let d0 = dec_of(args[0] as nat);
        let rest = d0 + args_text(args.skip(1));
        assert(w + args_text(args) =~= w + seq![' '] + rest);
        lemma_split_sp_head(w, rest);
        lemma_dec_of_nonempty(args[0] as nat);
        lemma_dec_of_digits(args[0] as nat);
        assert(forall|i: int| 0 <= i < d0.len() ==> d0[i] != ' ');
        lemma_split_text(d0, args.skip(1));
        assert(rest == d0 + args_text(args.skip(1)));
        assert(seq![w] + split_sp(rest) =~= seq![w] + (seq![d0] + Seq::new(
            args.skip(1).len(),
            |i: int| dec_of(args.skip(1)[i] as nat),
        )));
        assert(seq![w] + (seq![d0] + Seq::new(args.skip(1).len(), |i: int| dec_of(args.skip(1)[i] as nat)))
            =~= seq![w] + Seq::new(args.len(), |i: int| dec_of(args[i] as nat)));
    }
}

/// Encoding the argument tokens of a uniform line yields the offset
/// characters of its arguments.
proof fn lemma_encode_args(toks: Seq<Seq<char>>, args: Seq<u32>, k: int)
    requires
        toks.len() == args.len() + 1,
        forall|i: int| 0 <= i < args.len() ==> toks[i + 1] == dec_of((#[trigger] args[i]) as nat),
        forall|i: int| 0 <= i < args.len() ==> encodable(#[trigger] args[i]),
        1 <= k <= args.len() + 1,
    ensures
        encode_args_from(toks, k, args.len() as int) == Ok::<_, crate::error::TranscodeError>(
            enc_args(args).skip(k - 1),
        ),
    decreases args.len() + 1 - k,
{
    if k > args.len() {
        assert(enc_args(args).skip(k - 1) =~= Seq::<char>::empty());
    } else {
        let v = args[k - 1];
        lemma_dec_val_of_dec_of(v as nat);
        assert(dec_val_u32(toks[k]) == Some(v));
        lemma_encode_args(toks, args, k + 1);
        assert(seq![enc_char(v)] + enc_args(args).skip(k) =~= enc_args(args).skip(k - 1));
    }
}

/// Encoding a rendered uniform line yields its opcode character followed
/// by its argument characters.
proof fn lemma_encode_uniform_line(op: int, args: Seq<u32>)
    requires
        uniform_instr(op, args),
    ensures
        encode_line(plain_line(op, args)) == Ok::<_, crate::error::TranscodeError>(
            seq![enc_char(op as u32)] + enc_args(args),
        ),
{
    lemma_mnemonics_distinct();
    let l = plain_line(op, args);
    let mn = mnemonic_of(op);
    assert(l[0] == mn[0]);
    assert(trim_start(l) == l);
    lemma_split_text(mn, args);
    let toks = split_sp(trim_start(l));
    assert(toks == seq![mn] + Seq::new(args.len(), |i: int| dec_of(args[i] as nat)));
    assert(toks[0] == mn);
    lemma_lookup_of_mnemonic(op);
    assert(forall|i: int|
        0 <= i < args.len() ==> toks[i + 1] == dec_of((#[trigger] args[i]) as nat));
    lemma_encode_args(toks, args, 1);
    assert(enc_args(args).skip(0) =~= enc_args(args));
}

/// Decoding one uniform instruction returns the rendered line and consumes
/// exactly its arity.
proof fn lemma_decode_uniform_step(op: int, args: Seq<u32>, rest: Seq<char>)
    requires
        uniform_instr(op, args),
    ensures
        decode_step(op, enc_args(args) + rest) == Ok::<_, crate::error::TranscodeError>(
            (plain_line(op, args), arity_of(op) as nat),
        ),
{
    let t = enc_args(args) + rest;
    let n = arity_of(op) as int;
    assert forall|i: int| 0 <= i < n implies (#[trigger] t[i] as u32) == args[i] + 32 by {
        assert(t[i] == enc_char(args[i]));
        assert(encodable(args[i]));
    }
    assert(read_args(t, n) == Ok::<_, crate::error::TranscodeError>(args)) by {
        assert(!(t.len() < n));
        assert(forall|i: int| 0 <= i < n ==> (#[trigger] t[i] as u32) >= 32);
        assert(Seq::new(n as nat, |i: int| ((t[i] as u32 - 32) as u32)) =~= args);
    }
}

/// Round trip: a program built only from instructions with uniform numeric
/// arguments encodes from its canonical OASM text to OMC and decodes back
/// to the same text.
pub proof fn lemma_round_trip_uniform(prog: Seq<(int, Seq<u32>)>)
    requires
        forall|i: int|
            0 <= i < prog.len() ==> uniform_instr((#[trigger] prog[i]).0, prog[i].1),
    ensures
        encode_oasm(render_program(prog)) == Ok::<_, crate::error::TranscodeError>(
            enc_program(prog),
        ),
        decode_omc(enc_program(prog)) == Ok::<_, crate::error::TranscodeError>(
            render_program(prog),
        ),
    decreases prog.len(),
{
    if prog.len() == 0 {
        assert(encode_oasm(render_program(prog)) == Ok::<_, crate::error::TranscodeError>(
            Seq::<char>::empty(),
        ));
        assert(enc_program(prog) =~= Seq::<char>::empty());
    } else {
        let op = prog[0].0;
        let args = prog[0].1;
        let line = plain_line(op, args);
        let tail = prog.skip(1);
        assert(forall|i: int|
            0 <= i < tail.len() ==> uniform_instr((#[trigger] tail[i]).0, tail[i].1)) by {
            assert(forall|i: int| 0 <= i < tail.len() ==> tail[i] == prog[i + 1]);
        }
        lemma_round_trip_uniform(tail);
        lemma_mnemonics_distinct();
        lemma_args_text_chars(args);
        let text = render_program(prog);
        let mn = mnemonic_of(op);
        assert forall|i: int| 0 <= i < line.len() implies #[trigger] line[i] != '\n' && line[i]
            != '\r' by {
            if i < mn.len() {
                assert(line[i] == mn[i]);
            } else {
                assert(line[i] == args_text(args)[i - mn.len()]);
            }
        }

        // The encoding direction.
        lemma_find_char_concat(line, render_program(tail), '\n');
        assert(find_char(text, '\n') == line.len());
        assert(text.take(line.len() as int) =~= line);
        assert(strip_cr(line) == line);
        lemma_encode_uniform_line(op, args);
        assert(text.skip(line.len() as int + 1) =~= render_program(tail));
        let encline = seq![enc_char(op as u32)] + enc_args(args);
        assert(encline + enc_program(tail) =~= enc_program(prog));
        assert(encode_oasm(text) == Ok::<_, crate::error::TranscodeError>(enc_program(prog)));

        // The decoding direction.
        let s = enc_program(prog);
        assert(s[0] == enc_char(op as u32));
        assert(s[0] as u32 == op + 32);
        assert(s.skip(1) =~= enc_args(args) + enc_program(tail));
        lemma_decode_uniform_step(op, args, enc_program(tail));
        assert(s.skip(1 + arity_of(op) as int) =~= enc_program(tail)) by {
            assert(enc_args(args).len() == arity_of(op));
        }
        assert(line + seq!['\n'] + render_program(tail) =~= text);
        assert(decode_omc(s) == Ok::<_, crate::error::TranscodeError>(text));
    }
}

} // verus!
