//! Pass 1: the location-counter walk that gives each label its address and
//! measures the program.
use vstd::prelude::*;
use crate::encode::{byte_constant, constant_text, lemma_char_codes_len};
use crate::error::AsmError;
use crate::numbers::{number_of, parse_number, WORD_LIMIT};
use crate::opcode::{is_instruction, is_instruction_spec, spells4};
use crate::source::{
    has_label, has_label_spec, is_end, is_end_line, line_view, opcode_index, opcode_spec,
    operand_index, operand_spec, program_view, start_line, start_of,
};
use crate::symtab::SymbolTable;

verus! {

pub open spec fn word_word() -> Seq<char> {
    seq!['W', 'O', 'R', 'D']
}

pub open spec fn byte_word() -> Seq<char> {
    seq!['B', 'Y', 'T', 'E']
}

pub open spec fn resb_word() -> Seq<char> {
    seq!['R', 'E', 'S', 'B']
}

pub open spec fn resw_word() -> Seq<char> {
    seq!['R', 'E', 'S', 'W']
}

/// How many bytes a line with opcode `op` and operand `operand` occupies:
/// 3 for an instruction or `WORD`, the constant's bytes for `BYTE`, the
/// operand (decimal) for `RESB`, three times it for `RESW`.
pub open spec fn footprint(op: Seq<char>, operand: Seq<char>) -> Result<nat, AsmError> {
    if is_instruction_spec(op) || op == word_word() {
        Ok(3)
    } else if op == byte_word() {
        match constant_text(operand) {
            Some(t) => Ok(t.len() / 2),
            None => Err(AsmError::BadConstant),
        }
    } else if op == resb_word() {
        match number_of(operand, 10) {
            Some(n) => Ok(n as nat),
            None => Err(AsmError::BadNumber),
        }
    } else if op == resw_word() {
        match number_of(operand, 10) {
            Some(n) => Ok(3 * n as nat),
            None => Err(AsmError::BadNumber),
        }
    } else {
        Err(AsmError::UnknownDirective)
    }
}

/// The location counter after line `l` at `loc`, which must stay within six
/// hex digits.
pub open spec fn advance(l: Seq<Seq<char>>, loc: int) -> Result<int, AsmError> {
    match footprint(opcode_spec(l), operand_spec(l)) {
        Ok(n) => if loc + n > WORD_LIMIT {
            Err(AsmError::OutOfRange)
        } else {
            Ok(loc + n)
        },
        Err(e) => Err(e),
    }
}

/// One line of pass 1: define its label at `loc`, then advance `loc`.
pub open spec fn step1(l: Seq<Seq<char>>, table: Map<Seq<char>, u32>, loc: int) -> Result<
    (Map<Seq<char>, u32>, int),
    AsmError,
> {
    if l.len() == 0 {
        Err(AsmError::MalformedLine)
    } else if has_label_spec(l) && table.contains_key(l[0]) {
        Err(AsmError::DuplicateSymbol)
    } else {
        let t = if has_label_spec(l) {
            table.insert(l[0], loc as u32)
        } else {
            table
        };
        match advance(l, loc) {
            Ok(next) => Ok((t, next)),
            Err(e) => Err(e),
        }
    }
}

/// Pass 1 from line `i` on, up to the `END` line or the last line.
pub open spec fn run1(p: Seq<Seq<Seq<char>>>, i: int, table: Map<Seq<char>, u32>, loc: int) -> Result<
    (Map<Seq<char>, u32>, int),
    AsmError,
>
    decreases p.len() - i,
{
    if i < 1 || i >= p.len() || is_end_line(p[i]) {
        Ok((table, loc))
    } else {
        match step1(p[i], table, loc) {
            Ok((t, next)) => run1(p, i + 1, t, next),
            Err(e) => Err(e),
        }
    }
}

/// The symbol table and program length of program `p`: the first line gives
/// the starting address, the later lines up to `END` are walked.
pub open spec fn pass1_spec(p: Seq<Seq<Seq<char>>>) -> Result<(Map<Seq<char>, u32>, u32), AsmError> {
    if p.len() == 0 {
        Err(AsmError::MalformedLine)
    } else {
        match start_of(p[0]) {
            Err(e) => Err(e),
            Ok((_, start)) => match run1(p, 1, Map::empty(), start as int) {
                Ok((t, loc)) => Ok((t, (loc - start) as u32)),
                Err(e) => Err(e),
            },
        }
    }
}

/// The bytes a line occupies (see `footprint`).
pub fn line_footprint(line: &Vec<Vec<char>>) -> (r: Result<u32, AsmError>)
    requires
        line@.len() >= 1,
    ensures
        match r {
            Ok(n) => footprint(opcode_spec(line_view(*line)), operand_spec(line_view(*line)))
                == Ok::<nat, AsmError>(n as nat) && n <= 3 * WORD_LIMIT,
            Err(e) => footprint(opcode_spec(line_view(*line)), operand_spec(line_view(*line)))
                == Err::<nat, AsmError>(e),
        },
{
    let op = line[opcode_index(line)].as_slice();
    let empty: Vec<char> = Vec::new();
    let operand = match operand_index(line) {
        Some(k) => line[k].as_slice(),
        None => empty.as_slice(),
    };
    if is_instruction(op) || spells4(op, 'W', 'O', 'R', 'D') {
        Ok(3)
    } else if spells4(op, 'B', 'Y', 'T', 'E') {
        match byte_constant(operand) {
            Some(t) => {
                proof {
                    lemma_char_codes_len(crate::encode::quoted(operand@));
                }
                Ok((t.len() / 2) as u32)
            },
            None => Err(AsmError::BadConstant),
        }
    } else if spells4(op, 'R', 'E', 'S', 'B') {
        match parse_number(operand, 10) {
            Some(n) => Ok(n),
            None => Err(AsmError::BadNumber),
        }
    } else if spells4(op, 'R', 'E', 'S', 'W') {
        match parse_number(operand, 10) {
            Some(n) => Ok(3 * n),
            None => Err(AsmError::BadNumber),
        }
    } else {
        Err(AsmError::UnknownDirective)
    }
}

/// Pass 1 over the token lines `list`: the symbol table and the program
/// length (see `pass1_spec`). Footprints are never negative, so the location
/// counter never falls below the starting address and the length is never
/// negative.
pub fn pass1(list: &Vec<Vec<Vec<char>>>) -> (r: Result<(SymbolTable, u32), AsmError>)
    ensures
        match r {
            Ok((t, len)) => t.wf() && pass1_spec(program_view(list@)) == Ok::<
                (Map<Seq<char>, u32>, u32),
                AsmError,
            >((t@, len)),
            Err(e) => pass1_spec(program_view(list@)) == Err::<(Map<Seq<char>, u32>, u32), AsmError>(
                e,
            ),
        },
{
    let ghost p = program_view(list@);
    if list.len() == 0 {
        return Err(AsmError::MalformedLine);
    }
    assert(p[0] == line_view(list@[0]));
    let start = match start_line(&list[0]) {
        Ok((_, a)) => a,
        Err(e) => return Err(e),
    };
    let mut table = SymbolTable::new();
    let mut loc: u32 = start;
    let mut i: usize = 1;
    while i < list.len() && !is_end(&list[i])
        invariant
            p == program_view(list@),
            1 <= i <= list@.len(),
            table.wf(),
            loc <= WORD_LIMIT,
            start <= loc,
            pass1_spec(p) == match run1(p, i as int, table@, loc as int) {
                Ok((t, l)) => Ok((t, (l - start) as u32)),
                Err(e) => Err(e),
            },
        decreases list@.len() - i,
    {
        let line = &list[i];
        assert(p[i as int] == line_view(*line));
        if line.len() == 0 {
            return Err(AsmError::MalformedLine);
        }
        if has_label(line) {
            assert(line_view(*line)[0] == line@[0]@);
            if table.contains(line[0].as_slice()) {
                return Err(AsmError::DuplicateSymbol);
            }
        }
        let n = match line_footprint(line) {
            Ok(n) => n,
            Err(e) => return Err(e),
        };
        if loc as u64 + n as u64 > WORD_LIMIT as u64 {
            return Err(AsmError::OutOfRange);
        }
        if has_label(line) {
            table.insert(line[0].clone(), loc);
        }
        loc = loc + n;
        i += 1;
    }
    if i < list.len() {
        assert(p[i as int] == line_view(list@[i as int]));
    }
    Ok((table, loc - start))
}

} // verus!
