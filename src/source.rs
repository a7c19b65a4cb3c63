//! Source lines as token sequences: the label rule and the fields of a line.
use vstd::prelude::*;
use crate::error::AsmError;
use crate::numbers::{number_of, parse_number, WORD_LIMIT};
use crate::opcode::{is_instruction, is_instruction_spec, spells3, spells5};

verus! {

/// The tokens of one line.
pub open spec fn line_view(l: Vec<Vec<char>>) -> Seq<Seq<char>> {
    l@.map_values(|t: Vec<char>| t@)
}

/// The token lines of a program.
pub open spec fn program_view(p: Seq<Vec<Vec<char>>>) -> Seq<Seq<Seq<char>>> {
    p.map_values(|l: Vec<Vec<char>>| line_view(l))
}

pub open spec fn start_word() -> Seq<char> {
    seq!['S', 'T', 'A', 'R', 'T']
}

pub open spec fn end_word() -> Seq<char> {
    seq!['E', 'N', 'D']
}

/// Token `i` of line `l`, or the empty string where the line is shorter.
pub open spec fn token(l: Seq<Seq<char>>, i: int) -> Seq<char> {
    if 0 <= i < l.len() {
        l[i]
    } else {
        Seq::empty()
    }
}

/// A line carries a label iff it has more than one token and its first token
/// is not a machine-instruction mnemonic.
pub open spec fn has_label_spec(l: Seq<Seq<char>>) -> bool {
    !(l.len() == 1 || is_instruction_spec(token(l, 0)))
}

/// The opcode of a line: its second token after a label, else its first.
pub open spec fn opcode_spec(l: Seq<Seq<char>>) -> Seq<char> {
    if has_label_spec(l) {
        token(l, 1)
    } else {
        token(l, 0)
    }
}

/// The operand of a line: the token after the opcode where it is the line's
/// last token, else empty.
pub open spec fn operand_spec(l: Seq<Seq<char>>) -> Seq<char> {
    if has_label_spec(l) {
        if l.len() == 3 {
            l[2]
        } else {
            Seq::empty()
        }
    } else if l.len() == 2 {
        l[1]
    } else {
        Seq::empty()
    }
}

/// Whether a line is the `END` line.
pub open spec fn is_end_line(l: Seq<Seq<char>>) -> bool {
    l.len() > 0 && l[0] == end_word()
}

/// The program name and starting address that the first line gives: `START`
/// with a hex address, optionally after a name; a first line without
/// `START` gives no name and address 0.
pub open spec fn start_of(l: Seq<Seq<char>>) -> Result<(Seq<char>, u32), AsmError> {
    if token(l, 0) == start_word() {
        match number_of(token(l, 1), 16) {
            Some(a) => Ok((Seq::empty(), a)),
            None => Err(AsmError::BadNumber),
        }
    } else if token(l, 1) == start_word() {
        match number_of(token(l, 2), 16) {
            Some(a) => Ok((l[0], a)),
            None => Err(AsmError::BadNumber),
        }
    } else {
        Ok((Seq::empty(), 0))
    }
}

/// Whether `line` carries a label (see `has_label_spec`).
pub fn has_label(line: &Vec<Vec<char>>) -> (r: bool)
    requires
        line@.len() >= 1,
    ensures
        r == has_label_spec(line_view(*line)),
{
    !(line.len() == 1 || is_instruction(line[0].as_slice()))
}

/// The index of the opcode token of `line`.
pub fn opcode_index(line: &Vec<Vec<char>>) -> (r: usize)
    requires
        line@.len() >= 1,
    ensures
        r < line@.len(),
        line@[r as int]@ == opcode_spec(line_view(*line)),
{
    if has_label(line) {
        1
    } else {
        0
    }
}

/// The index of the operand token of `line`, if it has one.
pub fn operand_index(line: &Vec<Vec<char>>) -> (r: Option<usize>)
    requires
        line@.len() >= 1,
    ensures
        match r {
            Some(k) => k < line@.len() && line@[k as int]@ == operand_spec(line_view(*line)),
            None => operand_spec(line_view(*line)) == Seq::<char>::empty(),
        },
{
    if has_label(line) {
        if line.len() == 3 {
            Some(2)
        } else {
            None
        }
    } else if line.len() == 2 {
        Some(1)
    } else {
        None
    }
}

/// Token `i` of `line`, or `empty` where the line is shorter.
pub fn token_at<'a>(line: &'a Vec<Vec<char>>, i: usize, empty: &'a Vec<char>) -> (r: &'a [char])
    requires
        empty@.len() == 0,
    ensures
        r@ == token(line_view(*line), i as int),
{
    if i < line.len() {
        line[i].as_slice()
    } else {
        empty.as_slice()
    }
}

/// Whether `line` is the `END` line.
pub fn is_end(line: &Vec<Vec<char>>) -> (r: bool)
    ensures
        r == is_end_line(line_view(*line)),
{
    line.len() > 0 && spells3(line[0].as_slice(), 'E', 'N', 'D')
}

/// The program name and starting address of the first line (see `start_of`).
pub fn start_line(line: &Vec<Vec<char>>) -> (r: Result<(Vec<char>, u32), AsmError>)
    ensures
        match r {
            Ok((name, a)) => start_of(line_view(*line)) == Ok::<(Seq<char>, u32), AsmError>((name@, a))
                && a <= WORD_LIMIT,
            Err(e) => start_of(line_view(*line)) == Err::<(Seq<char>, u32), AsmError>(e),
        },
{
    let empty: Vec<char> = Vec::new();
    if spells5(token_at(line, 0, &empty), 'S', 'T', 'A', 'R', 'T') {
        match parse_number(token_at(line, 1, &empty), 16) {
            Some(a) => Ok((Vec::new(), a)),
            None => Err(AsmError::BadNumber),
        }
    } else if spells5(token_at(line, 1, &empty), 'S', 'T', 'A', 'R', 'T') {
        match parse_number(token_at(line, 2, &empty), 16) {
            Some(a) => Ok((line[0].clone(), a)),
            None => Err(AsmError::BadNumber),
        }
    } else {
        Ok((Vec::new(), 0))
    }
}

} // verus!
