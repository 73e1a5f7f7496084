use binsplit::disasm::{DisasmError, disassemble_listing, symbolize_op, symbolized_listing};
use binsplit::hexutil::{parse_hex, to_hex};
use binsplit::symbols::{SymbolError, SymbolTable, parse_sym_line};

#[test]
fn hex_parsing_accepts_plain_and_marked_numerals() {
    assert_eq!(parse_hex("00001000"), Some(0x1000));
    assert_eq!(parse_hex("0x82000010"), Some(0x82000010));
    assert_eq!(parse_hex("dEaDbEeF"), Some(0xdeadbeef));
    assert_eq!(parse_hex("ffffffffffffffff"), Some(u64::MAX));
    assert_eq!(parse_hex(""), None);
    assert_eq!(parse_hex("0x"), None);
    assert_eq!(parse_hex("12g4"), None);
    assert_eq!(parse_hex("10000000000000000"), None);
}

#[test]
fn hex_rendering_is_lower_case_and_minimal() {
    assert_eq!(to_hex(0), "0");
    assert_eq!(to_hex(0x1a), "1a");
    assert_eq!(to_hex(0x82000010), "82000010");
    assert_eq!(to_hex(u64::MAX), "ffffffffffffffff");
}

#[test]
fn symbol_lines_split_into_exactly_two_tokens() {
    assert_eq!(
        parse_sym_line("00001000 entry"),
        Some((0x1000, "entry".to_string()))
    );
    assert_eq!(parse_sym_line("00001000"), None);
    assert_eq!(parse_sym_line("00001000 two words"), None);
    assert_eq!(parse_sym_line("notahex name"), None);
    assert_eq!(parse_sym_line(""), None);
}

#[test]
fn symbol_table_resolves_both_ways_and_later_entries_shadow() {
    let lines = vec!["00001000 entry".to_string(), "00002000 other".to_string()];
    let t = SymbolTable::from_lines(&lines).unwrap();
    assert_eq!(t.resolve(0x1000), Some("entry".to_string()));
    assert_eq!(t.resolve(0x3000), None);
    assert_eq!(t.address_of("other"), Some(0x2000));
    assert_eq!(t.address_of("missing"), None);

    let mut t2 = SymbolTable::new();
    t2.insert(0x1000, "old".to_string());
    t2.insert(0x1000, "new".to_string());
    assert_eq!(t2.resolve(0x1000), Some("new".to_string()));
}

#[test]
fn a_malformed_symbol_line_is_a_fatal_load_error() {
    let lines = vec!["00001000 entry".to_string(), "broken".to_string()];
    assert_eq!(SymbolTable::from_lines(&lines), Err(SymbolError::MalformedLine));
}

#[test]
fn a_known_operand_literal_is_replaced_by_its_symbol() {
    let t = SymbolTable::from_lines(&vec!["00001000 entry".to_string()]).unwrap();

    let insns = vec![(0x2000u64, "b".to_string(), "0x00001000".to_string())];
    let lines = symbolized_listing(&insns, &t).unwrap();
    assert_eq!(lines, vec!["0x2000: b entry".to_string()]);

    let absent = vec![(0x2000u64, "b".to_string(), "0x00002000".to_string())];
    let lines = symbolized_listing(&absent, &t).unwrap();
    assert_eq!(lines, vec!["0x2000: b 0x00002000".to_string()]);
}

#[test]
fn a_label_line_marks_a_resolved_instruction_address() {
    let t = SymbolTable::from_lines(&vec!["00001000 entry".to_string()]).unwrap();
    let insns = vec![(0x1000u64, "blr".to_string(), "".to_string())];
    let lines = symbolized_listing(&insns, &t).unwrap();
    assert_eq!(lines, vec!["entry:".to_string(), "0x1000: blr".to_string()]);
}

#[test]
fn two_operand_literals_are_an_ambiguity_error() {
    let t = SymbolTable::new();
    let insns = vec![(
        0x2000u64,
        "lis".to_string(),
        "0x00001000, 0x00002000".to_string(),
    )];
    assert_eq!(
        symbolized_listing(&insns, &t),
        Err(DisasmError::AmbiguousOperand { addr: 0x2000 })
    );
}

#[test]
fn symbolize_op_keeps_surrounding_text() {
    let t = SymbolTable::from_lines(&vec!["00001000 entry".to_string()]).unwrap();
    assert_eq!(
        symbolize_op("r3, 0x00001000(r4)", &t),
        Some("r3, entry(r4)".to_string())
    );
    assert_eq!(symbolize_op("r3, r4", &t), Some("r3, r4".to_string()));
    assert_eq!(symbolize_op("0x00001000, 0x00001000", &t), None);
}

#[test]
fn the_decoder_produces_an_address_ascending_listing() {
    // two PowerPC instructions, big endian: `li r3, 1` and `blr`
    let data: Vec<u8> = vec![0x38, 0x60, 0x00, 0x01, 0x4e, 0x80, 0x00, 0x20];
    let t = SymbolTable::new();
    let lines = disassemble_listing(&data, 0x82000000, &t).unwrap();
    assert_eq!(lines.len(), 2);
    assert!(lines[0].starts_with("0x82000000: "));
    assert_eq!(lines[1], "0x82000004: blr");
}

#[test]
fn the_decoder_is_deterministic() {
    let data: Vec<u8> = vec![0x38, 0x60, 0x00, 0x01, 0x4e, 0x80, 0x00, 0x20];
    let t = SymbolTable::new();
    let first = disassemble_listing(&data, 0x82000000, &t).unwrap();
    let second = disassemble_listing(&data, 0x82000000, &t).unwrap();
    assert_eq!(first, second);
}
