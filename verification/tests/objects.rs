use binsplit::object::{
    ObjError, concat_functions, find_code_section, parse_object_header, primary_code_symbol,
};

fn be16(v: u16) -> [u8; 2] {
    [(v >> 8) as u8, v as u8]
}

fn be32(v: u32) -> [u8; 4] {
    [(v >> 24) as u8, (v >> 16) as u8, (v >> 8) as u8, v as u8]
}

/// A minimal object: one `.text` section, an inline-named section symbol
/// followed by one indirect-named function symbol, and a string table.
fn tiny_object() -> Vec<u8> {
    let mut o: Vec<u8> = Vec::new();
    // fixed header
    o.extend_from_slice(&be16(0x01DF)); // format tag
    o.extend_from_slice(&be16(1)); // section count
    o.extend_from_slice(&be32(0)); // timestamp
    o.extend_from_slice(&be32(60)); // symbol table offset
    o.extend_from_slice(&be32(2)); // symbol count
    o.extend_from_slice(&be16(0)); // optional header size
    o.extend_from_slice(&be16(0)); // flags
    // one 40-byte section record: inline name then geometry
    o.extend_from_slice(b".text\0\0\0");
    o.extend_from_slice(&[0u8; 32]);
    // symbol 0: inline-named (the section itself), never a candidate
    o.extend_from_slice(b".text\0\0\0");
    o.extend_from_slice(&be32(0)); // value
    o.extend_from_slice(&be16(1)); // section index
    o.extend_from_slice(&[0u8; 4]);
    // symbol 1: indirect name at string-table offset 0, section 1
    o.extend_from_slice(&be32(0)); // zero marker: name is indirect
    o.extend_from_slice(&be32(0)); // offset into the string table
    o.extend_from_slice(&be32(0)); // value
    o.extend_from_slice(&be16(1)); // section index
    o.extend_from_slice(&[0u8; 4]);
    // string table, immediately after the 2 * 18 symbol bytes
    assert_eq!(o.len(), 96);
    o.extend_from_slice(b"unit_main\0");
    o
}

#[test]
fn the_header_and_code_section_are_recognized() {
    let obj = tiny_object();
    let hdr = parse_object_header(&obj).unwrap();
    assert_eq!(hdr.n_sections, 1);
    assert_eq!(hdr.sym_offset, 60);
    assert_eq!(hdr.n_syms, 2);
    assert_eq!(hdr.opt_size, 0);
    assert_eq!(find_code_section(&obj, &hdr), Ok(1));
}

#[test]
fn the_first_indirect_symbol_of_the_code_section_names_the_function() {
    let obj = tiny_object();
    assert_eq!(primary_code_symbol(&obj), Ok(b"unit_main".to_vec()));
}

#[test]
fn a_wrong_format_tag_rejects_the_object() {
    let mut obj = tiny_object();
    obj[0] = 0x7f;
    assert_eq!(
        primary_code_symbol(&obj),
        Err(ObjError::UnsupportedObjectFormat)
    );
    let short = vec![0u8; 10];
    assert_eq!(
        parse_object_header(&short),
        Err(ObjError::UnsupportedObjectFormat)
    );
}

#[test]
fn an_object_without_a_qualifying_symbol_is_rejected() {
    let mut obj = tiny_object();
    // point the indirect symbol at a section index that is not the code one
    obj[60 + 18 + 12] = 0;
    obj[60 + 18 + 13] = 2;
    assert_eq!(
        primary_code_symbol(&obj),
        Err(ObjError::UnsupportedObjectFormat)
    );
}

#[test]
fn concatenation_pads_a_half_aligned_boundary_with_four_zeros() {
    let blobs = vec![vec![1, 2, 3, 4], vec![5, 6, 7, 8]];
    let out = concat_functions(&blobs).unwrap();
    assert_eq!(out, vec![1, 2, 3, 4, 0, 0, 0, 0, 5, 6, 7, 8]);
    assert_eq!(out.len() % 4, 0);

    let aligned = vec![vec![9; 8], vec![7; 4]];
    let out = concat_functions(&aligned).unwrap();
    assert_eq!(out.len(), 12);
    assert_eq!(&out[0..8], &[9; 8]);
    assert_eq!(&out[8..12], &[7; 4]);
}

#[test]
fn a_misaligned_blob_length_is_a_fatal_alignment_failure() {
    let blobs = vec![vec![1, 2], vec![3, 4]];
    assert_eq!(concat_functions(&blobs), Err(ObjError::AlignmentInvariant));
}
