//! The object code of one instruction or data directive.
use vstd::prelude::*;
use crate::error::AsmError;
use crate::numbers::{
    all_digits, char_digit, digit_char, digit_value, hex_fixed, hex_width, lemma_hex_fixed_len,
    number_of, parse_number, WORD_LIMIT,
};
use crate::opcode::{instruction, opcode_of};
use crate::symtab::SymbolTable;

verus! {

/// The most object bytes that one Text record holds.
pub const RECORD_CAPACITY: u32 = 30;

/// Each character as the two uppercase hex digits of its low byte.
pub open spec fn char_codes(s: Seq<char>) -> Seq<char>
    decreases s.len(),
{
    if s.len() == 0 {
        Seq::empty()
    } else {
        char_codes(s.drop_last()) + hex_fixed(((s.last() as u32) % 256) as nat, 2)
    }
}

/// Hex digits made uppercase.
pub open spec fn upper_digits(s: Seq<char>) -> Seq<char> {
    s.map_values(|c: char| digit_char(digit_value(c)))
}

/// The characters between the quotes of a `BYTE` operand `X'..'` or `C'..'`.
pub open spec fn quoted(op: Seq<char>) -> Seq<char> {
    op.subrange(2, op.len() - 1)
}

/// The hex text of a `BYTE` operand: `X'..'` holds an even number of hex
/// digits, copied in uppercase; `C'..'` holds characters, each encoded as
/// two hex digits. Either holds at most one Text record's worth of bytes.
pub open spec fn constant_text(op: Seq<char>) -> Option<Seq<char>> {
    if op.len() >= 3 && op[1] == '\'' && op[op.len() - 1] == '\'' {
        let body = quoted(op);
        if op[0] == 'X' && all_digits(body, 16) && body.len() % 2 == 0 && body.len() <= 2
            * RECORD_CAPACITY {
            Some(upper_digits(body))
        } else if op[0] == 'C' && body.len() <= RECORD_CAPACITY {
            Some(char_codes(body))
        } else {
            None
        }
    } else {
        None
    }
}

/// Two hex digits per character.
pub proof fn lemma_char_codes_len(s: Seq<char>)
    ensures
        char_codes(s).len() == 2 * s.len(),
    decreases s.len(),
{
    if s.len() > 0 {
        lemma_char_codes_len(s.drop_last());
        lemma_hex_fixed_len(((s.last() as u32) % 256) as nat, 2);
    }
}

/// The hex text of `BYTE` operand `op` (see `constant_text`).
pub fn byte_constant(op: &[char]) -> (r: Option<Vec<char>>)
    ensures
        match r {
            Some(t) => constant_text(op@) == Some(t@),
            None => constant_text(op@) is None,
        },
{
    let n = op.len();
    if n < 3 || op[1] != '\'' || op[n - 1] != '\'' {
        return None;
    }
    let ghost body = quoted(op@);
    let mut text: Vec<char> = Vec::new();
    if op[0] == 'X' {
        if (n - 3) % 2 != 0 || n - 3 > 60 {
            return None;
        }
        let mut i: usize = 2;
        while i < n - 1
            invariant
                n == op@.len(),
                n >= 3,
                2 <= i <= n - 1,
                body == quoted(op@),
                op@[0] == 'X',
                op@[1] == '\'',
                op@[n - 1] == '\'',
                (n - 3) % 2 == 0,
                n - 3 <= 60,
                all_digits(body.take(i - 2), 16),
                text@ == upper_digits(body.take(i - 2)),
            decreases n - 1 - i,
        {
            let d = char_digit(op[i]);
            assert(body[i - 2] == op@[i as int]);
            if d >= 16 {
                assert(!all_digits(body, 16)) by {
                    assert(digit_value(body[i - 2]) >= 16);
                }
                return None;
            }
            text.push(digit_char_of(d));
            proof {
                assert(body.take(i - 1) =~= body.take(i - 2).push(op@[i as int]));
                assert(upper_digits(body.take(i - 1)) =~= upper_digits(body.take(i - 2)).push(
                    digit_char(digit_value(op@[i as int])),
                ));
                assert forall|j: int| 0 <= j < body.take(i - 1).len() implies digit_value(
                    #[trigger] body.take(i - 1)[j],
                ) < 16 by {
                    if j < i - 2 {
                        assert(body.take(i - 1)[j] == body.take(i - 2)[j]);
                    }
                }
            }
            i += 1;
        }
        assert(body.take(n - 3) =~= body);
        Some(text)
    } else if op[0] == 'C' {
        if n - 3 > 30 {
            return None;
        }
        let mut i: usize = 2;
        while i < n - 1
            invariant
                n == op@.len(),
                n >= 3,
                2 <= i <= n - 1,
                body == quoted(op@),
                op@[0] == 'C',
                op@[1] == '\'',
                op@[n - 1] == '\'',
                n - 3 <= 30,
                text@ == char_codes(body.take(i - 2)),
            decreases n - 1 - i,
        {
            let code: u32 = (op[i] as u32) % 256;
            let pair = hex_width(code, 2);
            proof {
                lemma_hex_fixed_len(code as nat, 2);
                assert(body[i - 2] == op@[i as int]);
                assert(body.take(i - 1).drop_last() =~= body.take(i - 2));
            }
            text.push(pair[0]);
            text.push(pair[1]);
            assert(text@ =~= char_codes(body.take(i - 2)) + pair@);
            i += 1;
        }
        assert(body.take(n - 3) =~= body);
        Some(text)
    } else {
        None
    }
}

/// Whether an instruction operand ends in `,X`, the indexing suffix.
pub open spec fn is_indexed(operand: Seq<char>) -> bool {
    operand.len() >= 2 && operand[operand.len() - 2] == ',' && operand[operand.len() - 1] == 'X'
}

/// The symbol that an instruction operand names, without its `,X` suffix.
pub open spec fn symbol_part(operand: Seq<char>) -> Seq<char> {
    if is_indexed(operand) {
        operand.subrange(0, operand.len() - 2)
    } else {
        operand
    }
}

/// The 24-bit word of a machine instruction: the opcode times 65536, plus
/// 32768 where the operand is indexed, plus the address of the operand's
/// symbol where there is an operand.
pub open spec fn instruction_word(op: Seq<char>, operand: Seq<char>, table: Map<Seq<char>, u32>) -> Result<
    u32,
    AsmError,
> {
    let base = opcode_of(op) as int * 65536 + if is_indexed(operand) {
        32768int
    } else {
        0int
    };
    if operand.len() == 0 {
        Ok(base as u32)
    } else if !table.contains_key(symbol_part(operand)) {
        Err(AsmError::UndefinedSymbol)
    } else if base + table[symbol_part(operand)] > WORD_LIMIT {
        Err(AsmError::OutOfRange)
    } else {
        Ok((base + table[symbol_part(operand)]) as u32)
    }
}

/// The object text of a machine instruction: its word as six hex digits.
pub open spec fn instruction_text(op: Seq<char>, operand: Seq<char>, table: Map<Seq<char>, u32>) -> Result<
    Seq<char>,
    AsmError,
> {
    match instruction_word(op, operand, table) {
        Ok(w) => Ok(hex_fixed(w as nat, 6)),
        Err(e) => Err(e),
    }
}

/// The object text of machine instruction `opcode` with `operand` (see
/// `instruction_word`).
pub fn create_instruction(opcode: &[char], operand: &[char], sym_table: &SymbolTable) -> (r: Result<
    Vec<char>,
    AsmError,
>)
    requires
        sym_table.wf(),
    ensures
        match r {
            Ok(t) => instruction_text(opcode@, operand@, sym_table@) == Ok::<Seq<char>, AsmError>(t@),
            Err(e) => instruction_text(opcode@, operand@, sym_table@) == Err::<Seq<char>, AsmError>(e),
        },
{
    let n = operand.len();
    let indexed = n >= 2 && operand[n - 2] == ',' && operand[n - 1] == 'X';
    let base: u32 = instruction(opcode) as u32 * 65536 + if indexed {
        32768
    } else {
        0
    };
    if n == 0 {
        return Ok(hex_width(base, 6));
    }
    let symbol = if indexed {
        vstd::slice::slice_subrange(operand, 0, n - 2)
    } else {
        operand
    };
    assert(symbol@ =~= symbol_part(operand@));
    match sym_table.lookup(symbol) {
        None => Err(AsmError::UndefinedSymbol),
        Some(a) => {
            if base as u64 + a as u64 > WORD_LIMIT as u64 {
                Err(AsmError::OutOfRange)
            } else {
                Ok(hex_width(base + a, 6))
            }
        },
    }
}

/// The object text of a `WORD` operand: the decimal number as six hex digits.
pub open spec fn word_text(operand: Seq<char>) -> Result<Seq<char>, AsmError> {
    match number_of(operand, 10) {
        Some(v) => Ok(hex_fixed(v as nat, 6)),
        None => Err(AsmError::BadNumber),
    }
}

/// The object text of a `WORD` operand (see `word_text`).
pub fn word_constant(operand: &[char]) -> (r: Result<Vec<char>, AsmError>)
    ensures
        match r {
            Ok(t) => word_text(operand@) == Ok::<Seq<char>, AsmError>(t@),
            Err(e) => word_text(operand@) == Err::<Seq<char>, AsmError>(e),
        },
{
    match parse_number(operand, 10) {
        Some(v) => Ok(hex_width(v, 6)),
        None => Err(AsmError::BadNumber),
    }
}

fn digit_char_of(d: u32) -> (c: char)
    requires
        d < 16,
    ensures
        c == digit_char(d as int),
{
    if d < 10 {
        ((d + 48) as u8) as char
    } else {
        ((d + 55) as u8) as char
    }
}

} // verus!
