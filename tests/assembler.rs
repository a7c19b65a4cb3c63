use sic_asm::assemble::{assemble, file_to_obj_name, object_text};
use sic_asm::encode::{byte_constant, create_instruction, word_constant};
use sic_asm::error::AsmError;
use sic_asm::numbers::parse_number;
use sic_asm::opcode::{instruction, is_instruction};
use sic_asm::pass1::pass1;
use sic_asm::pass2::{hex_str_to_word, pass2, prog_name, write_text};
use sic_asm::source::has_label;
use sic_asm::symtab::SymbolTable;
use sic_asm::tokenize::tokenize;

fn chars(s: &str) -> Vec<char> {
    s.chars().collect()
}

fn text(v: &[char]) -> String {
    v.iter().collect()
}

fn run(src: &str) -> Result<String, AsmError> {
    assemble(&chars(src)).map(|a| text(&a.object))
}

fn line(tokens: &[&str]) -> Vec<Vec<char>> {
    tokens.iter().map(|t| chars(t)).collect()
}

const COPY: &str = "COPY START 1000\nFIRST LDA ALPHA\nALPHA WORD 5\nEND FIRST\n";

#[test]
fn copy_program_scenario() {
    let a = assemble(&chars(COPY)).unwrap();
    assert_eq!(
        text(&a.object),
        "HCOPY  001000000006\nT00100006001003000005\nE001000"
    );
    assert_eq!(a.length, 6);
    assert_eq!(a.symbols.len(), 2);
    assert_eq!(a.symbols.lookup(&chars("FIRST")), Some(0x1000));
    assert_eq!(a.symbols.lookup(&chars("ALPHA")), Some(0x1003));
    assert_eq!(a.symbols.lookup(&chars("BETA")), None);
}

#[test]
fn copy_program_passes_separately() {
    let list = tokenize(&chars(COPY)).unwrap();
    assert_eq!(list.len(), 4);
    let (table, len) = pass1(&list).unwrap();
    assert_eq!(len, 6);
    assert_eq!(table.lookup(&chars("ALPHA")), Some(0x1003));
    let (records, measured) = pass2(&list, &table, len).unwrap();
    assert_eq!(measured, 6);
    let records: Vec<String> = records.iter().map(|r| text(r)).collect();
    assert_eq!(
        records,
        vec!["HCOPY  001000000006", "T00100006001003000005", "E001000"]
    );
}

#[test]
fn reservation_starts_new_text_record() {
    let src = "PROG START 0\nFIRST LDA ALPHA\nBUF RESW 2\nSECOND STA ALPHA\nALPHA WORD 1\nEND FIRST";
    assert_eq!(
        run(src).unwrap(),
        "HPROG  00000000000F\nT0000000300000C\nT000009060C000C000001\nE000000"
    );
}

#[test]
fn reservation_then_data_starts_new_text_record() {
    let src = "P START 0\nA WORD 1\nB RESB 1\nC BYTE X'FF'\nEND A";
    assert_eq!(
        run(src).unwrap(),
        "HP     000000000005\nT00000003000001\nT00000401FF\nE000000"
    );
}

#[test]
fn reservation_at_end_emits_no_empty_record() {
    let src = "P START 0\nBUF RESB 4\nEND";
    assert_eq!(run(src).unwrap(), "HP     000000000004\nE000000");
}

#[test]
fn duplicate_label_aborts() {
    let src = "P START 0\nA WORD 1\nA WORD 2\nEND A";
    assert_eq!(run(src), Err(AsmError::DuplicateSymbol));
}

#[test]
fn undefined_symbol_aborts() {
    let src = "P START 0\nFIRST LDA MISSING\nEND FIRST";
    assert_eq!(run(src), Err(AsmError::UndefinedSymbol));
}

#[test]
fn undefined_end_symbol_aborts() {
    let src = "P START 0\nFIRST RSUB\nEND NOWHERE";
    assert_eq!(run(src), Err(AsmError::UndefinedSymbol));
}

#[test]
fn byte_character_constant_round_trip() {
    assert_eq!(text(&byte_constant(&chars("C'AB'")).unwrap()), "4142");
    let src = "P START 0\nS BYTE C'AB'\nEND";
    assert_eq!(run(src).unwrap(), "HP     000000000002\nT000000024142\nE000000");
}

#[test]
fn byte_hex_constant_round_trip() {
    assert_eq!(text(&byte_constant(&chars("X'1A2B'")).unwrap()), "1A2B");
    assert_eq!(text(&byte_constant(&chars("X'1a2b'")).unwrap()), "1A2B");
    let src = "P START 0\nS BYTE X'1a2b'\nEND";
    assert_eq!(run(src).unwrap(), "HP     000000000002\nT000000021A2B\nE000000");
}

#[test]
fn bad_byte_constants() {
    assert_eq!(byte_constant(&chars("X'1'")), None);
    assert_eq!(byte_constant(&chars("X'GG'")), None);
    assert_eq!(byte_constant(&chars("Q'AB'")), None);
    assert_eq!(byte_constant(&chars("C'AB")), None);
    assert_eq!(byte_constant(&chars("C")), None);
    let long = format!("C'{}'", "A".repeat(31));
    assert_eq!(byte_constant(&chars(&long)), None);
    let src = "P START 0\nS BYTE X'123'\nEND";
    assert_eq!(run(src), Err(AsmError::BadConstant));
}

#[test]
fn assembling_twice_gives_the_same_object() {
    let src = "P START 200\nL LDX ZERO\nLOOP LDCH STR,X\nTIX TEN\nJLT LOOP\nZERO WORD 0\nTEN WORD 10\nSTR BYTE C'HELLO'\nEND L";
    let a = run(src).unwrap();
    let b = run(src).unwrap();
    assert_eq!(a, b);
}

#[test]
fn text_records_hold_at_most_thirty_bytes() {
    let mut src = String::from("P START 0\n");
    for i in 0..11 {
        src.push_str(&format!("W{} WORD 7\n", i));
    }
    src.push_str("END");
    let out = run(&src).unwrap();
    let lines: Vec<&str> = out.split('\n').collect();
    assert_eq!(lines.len(), 4);
    assert_eq!(lines[0], "HP     000000000021");
    assert_eq!(lines[1], format!("T0000001E{}", "000007".repeat(10)));
    assert_eq!(lines[2], "T00001E03000007");
    for l in &lines[1..3] {
        let count = usize::from_str_radix(&l[7..9], 16).unwrap();
        assert_eq!(count * 2, l.len() - 9);
        assert!(count <= 30);
    }
}

#[test]
fn header_length_matches_text_span() {
    let src = "P START 100\nA LDA B\nB BYTE C'XYZ'\nC RESW 1\nD WORD 3\nEND A";
    let a = assemble(&chars(src)).unwrap();
    assert_eq!(a.length, 12);
    assert!(text(&a.object).starts_with("HP     00010000000C"));
}

#[test]
fn indexed_operand_sets_the_index_bit() {
    let src = "P START 1000\nLDCH BUF,X\nBUF BYTE X'00'\nEND";
    assert_eq!(
        run(src).unwrap(),
        "HP     001000000004\nT0010000450900300\nE001000"
    );
}

#[test]
fn comments_are_skipped() {
    let src = ". a comment\nP START 0\n. another\nRSUB\nEND";
    assert_eq!(run(src).unwrap(), "HP     000000000003\nT000000034C0000\nE000000");
}

#[test]
fn unnamed_start_and_long_name() {
    assert_eq!(run("START 10\nRSUB\nEND").unwrap(), "H      000010000003\nT000010034C0000\nE000010");
    assert_eq!(run("PROGRAMX START 0\nEND").unwrap(), "HPROGRA000000000000\nE000000");
}

#[test]
fn error_kinds() {
    assert_eq!(run("P START 0\n\nEND"), Err(AsmError::MalformedLine));
    assert_eq!(run("P START 0\n   \nEND"), Err(AsmError::MalformedLine));
    assert_eq!(run(""), Err(AsmError::MalformedLine));
    assert_eq!(run("P START 0\nA FOO 1\nEND"), Err(AsmError::UnknownDirective));
    assert_eq!(run("P START 0\nA RESB x\nEND"), Err(AsmError::BadNumber));
    assert_eq!(run("P START 0\nA WORD -1\nEND"), Err(AsmError::BadNumber));
    assert_eq!(run("P START ZZ\nEND"), Err(AsmError::BadNumber));
    assert_eq!(run("P START FFFFFF\nRSUB\nEND"), Err(AsmError::OutOfRange));
    assert_eq!(run("P START 0\nRSUB"), Err(AsmError::MissingEnd));
}

#[test]
fn opcode_table() {
    assert_eq!(instruction(&chars("LDA")), 0x00);
    assert_eq!(instruction(&chars("STSW")), 0xE8);
    assert_eq!(instruction(&chars("WD")), 0xDC);
    assert_eq!(instruction(&chars("WORD")), 0xFF);
    assert!(is_instruction(&chars("J")));
    assert!(!is_instruction(&chars("lda")));
}

#[test]
fn label_rule() {
    assert!(has_label(&line(&["FIRST", "LDA", "ALPHA"])));
    assert!(!has_label(&line(&["LDA", "ALPHA"])));
    assert!(!has_label(&line(&["RSUB"])));
    assert!(has_label(&line(&["BUF", "RESW"])));
}

#[test]
fn numbers_and_hex() {
    assert_eq!(text(&hex_str_to_word(0x1a)), "00001A");
    assert_eq!(text(&prog_name(&chars("AB"))), "AB    ");
    assert_eq!(parse_number(&chars("1000"), 16), Some(0x1000));
    assert_eq!(parse_number(&chars("1000"), 10), Some(1000));
    assert_eq!(parse_number(&chars("1000000"), 16), None);
    assert_eq!(parse_number(&chars(""), 10), None);
    assert_eq!(text(&word_constant(&chars("4096")).unwrap()), "001000");
    assert_eq!(text(&write_text(0x1000, &chars("4142"))), "T001000024142");
}

#[test]
fn instruction_encoding() {
    let mut t = SymbolTable::new();
    t.insert(chars("BUF"), 0x1003);
    assert_eq!(text(&create_instruction(&chars("STA"), &chars("BUF"), &t).unwrap()), "0C1003");
    assert_eq!(text(&create_instruction(&chars("STA"), &chars("BUF,X"), &t).unwrap()), "0C9003");
    assert_eq!(text(&create_instruction(&chars("RSUB"), &chars(""), &t).unwrap()), "4C0000");
    assert_eq!(create_instruction(&chars("STA"), &chars("NONE"), &t), Err(AsmError::UndefinedSymbol));
}

#[test]
fn object_file_name() {
    assert_eq!(text(&file_to_obj_name(&chars("path/to/prog.asm"))), "prog.obj");
    assert_eq!(text(&file_to_obj_name(&chars("prog.asm"))), "prog.obj");
    assert_eq!(text(&file_to_obj_name(&chars("prog"))), "prog.obj");
}

#[test]
fn join_records_without_final_newline() {
    let recs = vec![chars("HX"), chars("E000000")];
    assert_eq!(text(&object_text(&recs)), "HX\nE000000");
}
