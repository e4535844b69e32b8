use crate::bfmachine::{
    decode, disassembly_line, disassembly_lines, is_instruction_byte, is_jump_table, loops_match, parse_error,
    program_of, well_nested, BfError, BfInstruction,
};
use vstd::prelude::*;

verus! {

/// A source text with no byte of the instruction alphabet holds no program,
/// so parsing it fails with `InvalidProgram`.
pub proof fn lemma_no_instructions_is_invalid(bytes: Seq<u8>)
    requires
        forall|i: int| 0 <= i < bytes.len() ==> !is_instruction_byte(#[trigger] bytes[i]),
    ensures
        program_of(bytes).len() == 0,
        parse_error(program_of(bytes)) == Some(BfError::InvalidProgram),
    decreases bytes.len(),
{
    if bytes.len() > 0 {
        let rest = bytes.drop_last();
        assert forall|i: int| 0 <= i < rest.len() implies !is_instruction_byte(#[trigger] rest[i]) by {
            assert(rest[i] == bytes[i]);
        }
        lemma_no_instructions_is_invalid(rest);
        assert(!is_instruction_byte(bytes[bytes.len() - 1]));
    }
}

/// In the jump table of a well-nested program, following an entry twice
/// comes back to where it started.
pub proof fn lemma_jump_table_involution(p: Seq<BfInstruction>, t: Map<usize, usize>)
    requires
        well_nested(p),
        is_jump_table(p, t),
    ensures
        forall|i: usize| #[trigger]
            t.contains_key(i) ==> t.contains_key(t[i]) && t[t[i]] == i,
{
    assert forall|i: usize| #[trigger] t.contains_key(i) implies t.contains_key(t[i]) && t[t[i]]
        == i by {
        let j = t[i];
        assert(loops_match(p, i as int, j as int) || loops_match(p, j as int, i as int));
    }
}

/// Disassembling a parsed program gives one line for each alphabet byte of
/// the source, in source order: the other bytes are the only ones dropped.
pub proof fn lemma_disassembly_follows_source(bytes: Seq<u8>)
    ensures
        disassembly_lines(program_of(bytes)) == bytes.filter(|b: u8| is_instruction_byte(b)).map_values(
            |b: u8| disassembly_line(decode(b)),
        ),
        disassembly_lines(program_of(bytes)).len() == bytes.filter(|b: u8| is_instruction_byte(b)).len(),
    decreases bytes.len(),
{
    reveal(Seq::filter);
    let pred = |b: u8| is_instruction_byte(b);
    let line = |b: u8| disassembly_line(decode(b));
    if bytes.len() == 0 {
        assert(disassembly_lines(program_of(bytes)) =~= bytes.filter(pred).map_values(line));
    } else {
        let rest = bytes.drop_last();
        lemma_disassembly_follows_source(rest);
        if is_instruction_byte(bytes.last()) {
            assert(disassembly_lines(program_of(bytes)) =~= disassembly_lines(program_of(rest)).push(
                disassembly_line(decode(bytes.last())),
            ));
            assert(bytes.filter(pred).map_values(line) =~= rest.filter(pred).map_values(line).push(
                line(bytes.last()),
            ));
        } else {
            assert(bytes.filter(pred) == rest.filter(pred));
        }
    }
}

} // verus!
