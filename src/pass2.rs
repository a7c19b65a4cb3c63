//! Pass 2: encoding each line and packing the object text into Header, Text
//! and End records.
use vstd::prelude::*;
use crate::encode::{
    byte_constant, constant_text, create_instruction, instruction_text, lemma_char_codes_len,
    word_constant, word_text, RECORD_CAPACITY,
};
use crate::error::AsmError;
use crate::numbers::{hex_fixed, hex_width, lemma_hex_fixed_len, WORD_LIMIT};
use crate::opcode::{is_instruction, is_instruction_spec, spells4};
use crate::pass1::{advance, byte_word, line_footprint, word_word};
use crate::source::{
    is_end, is_end_line, line_view, opcode_index, opcode_spec, operand_index, operand_spec,
    program_view, start_line, start_of,
};
use crate::symtab::SymbolTable;

verus! {

/// The program name as six characters: cut to six, or padded with spaces.
pub open spec fn name_field(name: Seq<char>) -> Seq<char> {
    if name.len() >= 6 {
        name.take(6)
    } else {
        name + Seq::new((6 - name.len()) as nat, |i: int| ' ')
    }
}

/// The Header record: `H`, the name field, the starting address and the
/// program length, each as six hex digits.
pub open spec fn header_record(name: Seq<char>, start: u32, len: u32) -> Seq<char> {
    seq!['H'] + name_field(name) + hex_fixed(start as nat, 6) + hex_fixed(len as nat, 6)
}

/// A Text record: `T`, the start address as six hex digits, the byte count
/// (half the hex text's length) as two, then the hex text.
pub open spec fn text_record(start: int, text: Seq<char>) -> Seq<char> {
    seq!['T'] + hex_fixed(start as nat, 6) + hex_fixed((text.len() / 2) as nat, 2) + text
}

/// The End record: `E` and the entry address as six hex digits.
pub open spec fn end_record(addr: u32) -> Seq<char> {
    seq!['E'] + hex_fixed(addr as nat, 6)
}

/// Where pass 2 stands between two lines.
pub struct Packer {
    /// The location counter.
    pub loc: int,
    /// The address of the pending Text record.
    pub tstart: int,
    /// The hex text of the pending Text record.
    pub buf: Seq<char>,
    /// Set after a reservation: the next emitted text opens a new record.
    pub force_new: bool,
    /// The records finished so far.
    pub records: Seq<Seq<char>>,
}

/// The records with the pending Text record closed, where it is not empty.
pub open spec fn flushed(s: Packer) -> Seq<Seq<char>> {
    if s.buf.len() > 0 {
        s.records.push(text_record(s.tstart, s.buf))
    } else {
        s.records
    }
}

/// Emits `text`, ending at `next`: it opens a new Text record after a
/// reservation or where the pending one would pass the capacity, else it
/// joins the pending one.
pub open spec fn emit(s: Packer, text: Seq<char>, next: int) -> Packer {
    if s.force_new || next - s.tstart > RECORD_CAPACITY {
        Packer { loc: next, tstart: s.loc, buf: text, force_new: false, records: flushed(s) }
    } else {
        Packer { loc: next, tstart: s.tstart, buf: s.buf + text, force_new: false, records: s.records }
    }
}

/// One line of pass 2.
pub open spec fn step2(l: Seq<Seq<char>>, table: Map<Seq<char>, u32>, s: Packer) -> Result<
    Packer,
    AsmError,
> {
    if l.len() == 0 {
        Err(AsmError::MalformedLine)
    } else {
        match advance(l, s.loc) {
            Err(e) => Err(e),
            Ok(next) => {
                let op = opcode_spec(l);
                let operand = operand_spec(l);
                if is_instruction_spec(op) {
                    match instruction_text(op, operand, table) {
                        Ok(t) => Ok(emit(s, t, next)),
                        Err(e) => Err(e),
                    }
                } else if op == word_word() {
                    match word_text(operand) {
                        Ok(t) => Ok(emit(s, t, next)),
                        Err(e) => Err(e),
                    }
                } else if op == byte_word() {
                    Ok(emit(s, constant_text(operand).unwrap(), next))
                } else {
                    Ok(Packer { loc: next, force_new: true, ..s })
                }
            },
        }
    }
}

/// The entry address that an `END` line names: its operand's address, or
/// `start` where it has none.
pub open spec fn entry_of(l: Seq<Seq<char>>, table: Map<Seq<char>, u32>, start: u32) -> Result<u32, AsmError> {
    if l.len() == 2 {
        if table.contains_key(l[1]) {
            Ok(table[l[1]])
        } else {
            Err(AsmError::UndefinedSymbol)
        }
    } else {
        Ok(start)
    }
}

/// Pass 2 from line `i` on: the records and the final location counter.
pub open spec fn run2(
    p: Seq<Seq<Seq<char>>>,
    i: int,
    table: Map<Seq<char>, u32>,
    start: u32,
    s: Packer,
) -> Result<(Seq<Seq<char>>, int), AsmError>
    decreases p.len() - i,
{
    if i < 1 || i >= p.len() {
        Err(AsmError::MissingEnd)
    } else if is_end_line(p[i]) {
        match entry_of(p[i], table, start) {
            Ok(a) => Ok((flushed(s).push(end_record(a)), s.loc)),
            Err(e) => Err(e),
        }
    } else {
        match step2(p[i], table, s) {
            Ok(s2) => run2(p, i + 1, table, start, s2),
            Err(e) => Err(e),
        }
    }
}

/// The state pass 2 starts in: the Header record alone.
pub open spec fn initial(name: Seq<char>, start: u32, len: u32) -> Packer {
    Packer {
        loc: start as int,
        tstart: start as int,
        buf: Seq::empty(),
        force_new: false,
        records: seq![header_record(name, start, len)],
    }
}

/// The object records of program `p` with symbol table `table` and program
/// length `len`, and the length that pass 2 measured.
pub open spec fn pass2_spec(p: Seq<Seq<Seq<char>>>, table: Map<Seq<char>, u32>, len: u32) -> Result<
    (Seq<Seq<char>>, u32),
    AsmError,
> {
    if p.len() == 0 {
        Err(AsmError::MalformedLine)
    } else {
        match start_of(p[0]) {
            Err(e) => Err(e),
            Ok((name, start)) => match run2(p, 1, table, start, initial(name, start, len)) {
                Ok((recs, loc)) => Ok((recs, (loc - start) as u32)),
                Err(e) => Err(e),
            },
        }
    }
}

/// The records of a list of record vectors.
pub open spec fn records_view(r: Seq<Vec<char>>) -> Seq<Seq<char>> {
    r.map_values(|v: Vec<char>| v@)
}

/// The name field of the Header record (see `name_field`).
pub fn prog_name(name: &[char]) -> (r: Vec<char>)
    ensures
        r@ == name_field(name@),
{
    let mut r: Vec<char> = Vec::new();
    let mut i: usize = 0;
    while i < 6
        invariant
            i <= 6,
            r@ == (if i <= name@.len() {
                name@.take(i as int)
            } else {
                name@ + Seq::new((i - name@.len()) as nat, |k: int| ' ')
            }),
        decreases 6 - i,
    {
        if i < name.len() {
            r.push(name[i]);
            assert(name@.take(i + 1) =~= name@.take(i as int).push(name@[i as int]));
        } else {
            r.push(' ');
            if i == name.len() {
                assert(name@.take(i as int) =~= name@);
            }
            assert(name@ + Seq::new((i + 1 - name@.len()) as nat, |k: int| ' ') =~= (if i
                <= name@.len() {
                name@.take(i as int)
            } else {
                name@ + Seq::new((i - name@.len()) as nat, |k: int| ' ')
            }).push(' '));
        }
        i += 1;
    }
    r
}

/// `v` as six uppercase hex digits.
pub fn hex_str_to_word(v: u32) -> (r: Vec<char>)
    ensures
        r@ == hex_fixed(v as nat, 6),
{
    hex_width(v, 6)
}

/// The Text record of hex text `line` starting at `start` (see `text_record`).
pub fn write_text(start: u32, line: &Vec<char>) -> (r: Vec<char>)
    requires
        line@.len() <= 2 * RECORD_CAPACITY,
    ensures
        r@ == text_record(start as int, line@),
{
    let mut r: Vec<char> = vec!['T'];
    let mut a = hex_str_to_word(start);
    let mut n = hex_width((line.len() / 2) as u32, 2);
    let mut body = line.clone();
    r.append(&mut a);
    r.append(&mut n);
    r.append(&mut body);
    r
}

/// The Header record (see `header_record`).
pub fn write_header(name: &[char], start: u32, len: u32) -> (r: Vec<char>)
    ensures
        r@ == header_record(name@, start, len),
{
    let mut r: Vec<char> = vec!['H'];
    let mut n = prog_name(name);
    let mut a = hex_str_to_word(start);
    let mut l = hex_str_to_word(len);
    r.append(&mut n);
    r.append(&mut a);
    r.append(&mut l);
    r
}

/// The End record (see `end_record`).
pub fn write_end(addr: u32) -> (r: Vec<char>)
    ensures
        r@ == end_record(addr),
{
    let mut r: Vec<char> = vec!['E'];
    let mut a = hex_str_to_word(addr);
    r.append(&mut a);
    r
}

/// The pass 2 state that the executable one stands for.
pub open spec fn packer_of(loc: u32, tstart: u32, buf: Seq<char>, force_new: bool, records: Seq<
    Vec<char>,
>) -> Packer {
    Packer {
        loc: loc as int,
        tstart: tstart as int,
        buf,
        force_new,
        records: records_view(records),
    }
}

/// The hex text of an emitting line, with twice as many digits as bytes the
/// line occupies and no more than a Text record holds.
pub proof fn lemma_text_len(l: Seq<Seq<char>>, table: Map<Seq<char>, u32>, loc: int)
    requires
        l.len() > 0,
        advance(l, loc) is Ok,
    ensures
        is_instruction_spec(opcode_spec(l)) && instruction_text(opcode_spec(l), operand_spec(l), table) is Ok
            ==> instruction_text(opcode_spec(l), operand_spec(l), table)->Ok_0.len() == 2 * (advance(l, loc)->Ok_0 - loc),
        !is_instruction_spec(opcode_spec(l)) && opcode_spec(l) == word_word() && word_text(operand_spec(l)) is Ok
            ==> word_text(operand_spec(l))->Ok_0.len() == 2 * (advance(l, loc)->Ok_0 - loc),
        !is_instruction_spec(opcode_spec(l)) && opcode_spec(l) != word_word() && opcode_spec(l) == byte_word() ==>
            constant_text(operand_spec(l)) is Some
            && constant_text(operand_spec(l))->Some_0.len() == 2 * (advance(l, loc)->Ok_0 - loc)
            && constant_text(operand_spec(l))->Some_0.len() <= 2 * RECORD_CAPACITY,
{
    let op = opcode_spec(l);
    let operand = operand_spec(l);
    if is_instruction_spec(op) {
        if let Ok(w) = crate::encode::instruction_word(op, operand, table) {
            lemma_hex_fixed_len(w as nat, 6);
        }
    } else if op == word_word() {
        if let Some(v) = crate::numbers::number_of(operand, 10) {
            lemma_hex_fixed_len(v as nat, 6);
        }
    } else if op == byte_word() {
        let body = crate::encode::quoted(operand);
        lemma_char_codes_len(body);
    }
}

/// Pass 2 over the token lines `list` with the symbol table and program
/// length of pass 1: the object records, and the length that pass 2
/// measured (see `pass2_spec`).
pub fn pass2(list: &Vec<Vec<Vec<char>>>, sym_table: &SymbolTable, prog_len: u32) -> (r: Result<
    (Vec<Vec<char>>, u32),
    AsmError,
>)
    requires
        sym_table.wf(),
    ensures
        match r {
            Ok((recs, len)) => pass2_spec(program_view(list@), sym_table@, prog_len) == Ok::<
                (Seq<Seq<char>>, u32),
                AsmError,
            >((records_view(recs@), len)),
            Err(e) => pass2_spec(program_view(list@), sym_table@, prog_len) == Err::<
                (Seq<Seq<char>>, u32),
                AsmError,
            >(e),
        },
{
    let ghost p = program_view(list@);
    if list.len() == 0 {
        return Err(AsmError::MalformedLine);
    }
    assert(p[0] == line_view(list@[0]));
    let (name, start) = match start_line(&list[0]) {
        Ok(v) => v,
        Err(e) => return Err(e),
    };
    let mut records: Vec<Vec<char>> = Vec::new();
    records.push(write_header(name.as_slice(), start, prog_len));
    let mut loc: u32 = start;
    let mut tstart: u32 = start;
    let mut buf: Vec<char> = Vec::new();
    let mut force_new: bool = false;
    assert(records_view(records@) =~= seq![header_record(name@, start, prog_len)]);
    assert(buf@ =~= Seq::<char>::empty());
    let mut i: usize = 1;
    while i < list.len() && !is_end(&list[i])
        invariant
            p == program_view(list@),
            1 <= i <= list@.len(),
            sym_table.wf(),
            start <= tstart <= loc <= WORD_LIMIT,
            buf@.len() <= 2 * RECORD_CAPACITY,
            force_new || buf@.len() == 2 * (loc - tstart),
            pass2_spec(p, sym_table@, prog_len) == match run2(
                p,
                i as int,
                sym_table@,
                start,
                packer_of(loc, tstart, buf@, force_new, records@),
            ) {
                Ok((recs, l)) => Ok((recs, (l - start) as u32)),
                Err(e) => Err(e),
            },
        decreases list@.len() - i,
    {
        let line = &list[i];
        assert(p[i as int] == line_view(*line));
        if line.len() == 0 {
            return Err(AsmError::MalformedLine);
        }
        let n = match line_footprint(line) {
            Ok(n) => n,
            Err(e) => return Err(e),
        };
        if loc as u64 + n as u64 > WORD_LIMIT as u64 {
            return Err(AsmError::OutOfRange);
        }
        let next: u32 = loc + n;
        let op = line[opcode_index(line)].as_slice();
        let empty: Vec<char> = Vec::new();
        let operand = match operand_index(line) {
            Some(k) => line[k].as_slice(),
            None => empty.as_slice(),
        };
        proof {
            lemma_text_len(line_view(*line), sym_table@, loc as int);
        }
        let text: Option<Vec<char>> = if is_instruction(op) {
            match create_instruction(op, operand, sym_table) {
                Ok(t) => Some(t),
                Err(e) => return Err(e),
            }
        } else if spells4(op, 'W', 'O', 'R', 'D') {
            match word_constant(operand) {
                Ok(t) => Some(t),
                Err(e) => return Err(e),
            }
        } else if spells4(op, 'B', 'Y', 'T', 'E') {
            byte_constant(operand)
        } else {
            None
        };
        let ghost before = packer_of(loc, tstart, buf@, force_new, records@);
        match text {
            Some(t) => {
                let ghost tv = t@;
                if force_new || next - tstart > RECORD_CAPACITY {
                    if buf.len() > 0 {
                        let rec = write_text(tstart, &buf);
                        records.push(rec);
                    }
                    tstart = loc;
                    buf = t;
                } else {
                    let mut t = t;
                    buf.append(&mut t);
                }
                force_new = false;
                proof {
                    assert(packer_of(next, tstart, buf@, force_new, records@) == emit(before, tv, next as int)) by {
                        if before.force_new || next - before.tstart > RECORD_CAPACITY {
                            assert(records_view(records@) =~= flushed(before));
                        } else {
                            assert(records_view(records@) =~= before.records);
                        }
                    }
                }
            },
            None => {
                force_new = true;
            },
        }
        loc = next;
        i += 1;
    }
    if i == list.len() {
        return Err(AsmError::MissingEnd);
    }
    let line = &list[i];
    assert(p[i as int] == line_view(*line));
    let ghost before = packer_of(loc, tstart, buf@, force_new, records@);
    let addr = if line.len() == 2 {
        assert(line_view(*line)[1] == line@[1]@);
        match sym_table.lookup(line[1].as_slice()) {
            Some(a) => a,
            None => return Err(AsmError::UndefinedSymbol),
        }
    } else {
        start
    };
    if buf.len() > 0 {
        let rec = write_text(tstart, &buf);
        records.push(rec);
    }
    records.push(write_end(addr));
    proof {
        assert(records_view(records@) =~= flushed(before).push(end_record(addr)));
    }
    Ok((records, loc - start))
}

} // verus!
