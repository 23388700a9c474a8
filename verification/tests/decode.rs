//! End-to-end tests of the decoder on synthetic images.

use dbgparse::DbgFile;
use dbgparse::DebugType;
use dbgparse::Error;

fn p16(v: &mut Vec<u8>, x: u16) {
    v.extend_from_slice(&x.to_le_bytes());
}

fn p32(v: &mut Vec<u8>, x: u32) {
    v.extend_from_slice(&x.to_le_bytes());
}

/// The fixed separate-debug-info header with the given section count,
/// exported-names size and debug-directory size.
fn header(nsec: u32, expsz: u32, dirsz: u32) -> Vec<u8> {
    let mut v = Vec::new();
    v.extend_from_slice(b"DI");
    p16(&mut v, 0); // flags
    p16(&mut v, 0x014c); // machine
    p16(&mut v, 0); // characteristics
    p32(&mut v, 0); // timedatestamp
    p32(&mut v, 0); // checksum
    p32(&mut v, 0x0040_0000); // image base
    p32(&mut v, 0x1000); // size of image
    p32(&mut v, nsec);
    p32(&mut v, expsz);
    p32(&mut v, dirsz);
    p32(&mut v, 0x1000); // section alignment
    v.extend_from_slice(&[0u8; 8]); // reserved
    assert_eq!(v.len(), 48);
    v
}

/// One 28-byte debug-directory entry.
fn dir_entry(typ: u32, ptr: u32) -> Vec<u8> {
    let mut v = Vec::new();
    p32(&mut v, 0); // characteristics
    p32(&mut v, 0); // timedatestamp
    p16(&mut v, 0); // major_version
    p16(&mut v, 0); // minor_version
    p32(&mut v, typ);
    p32(&mut v, 0); // size_of_data
    p32(&mut v, 0); // addr_raw_data
    p32(&mut v, ptr);
    assert_eq!(v.len(), 28);
    v
}

/// One 18-byte symbol record followed by its auxiliary records.
fn sym(name: [u8; 8], value: u32, typ: u16, class: u8, aux: &[[u8; 18]]) -> Vec<u8> {
    let mut v = Vec::new();
    v.extend_from_slice(&name);
    p32(&mut v, value);
    p16(&mut v, 0); // section number
    p16(&mut v, typ);
    v.push(class);
    v.push(aux.len() as u8);
    for a in aux {
        v.extend_from_slice(a);
    }
    v
}

/// A file-marker symbol latching `filename` as the current file.
fn file_sym(filename: &str) -> Vec<u8> {
    let mut aux = [0u8; 18];
    aux[..filename.len()].copy_from_slice(filename.as_bytes());
    sym(*b".file\0\0\0", 0, 0, 103, &[aux])
}

/// An auxiliary record whose first four bytes carry a section length.
fn len_aux(len: u32) -> [u8; 18] {
    let mut a = [0u8; 18];
    a[..4].copy_from_slice(&len.to_le_bytes());
    a
}

/// A COFF debug block: header, line records, symbol records, string
/// table.  `nsym` counts symbol entries including auxiliary records.
fn coff_block(lines: &[(u32, u16)], syms: &[u8], nsym: u32, strtab: &[u8]) -> Vec<u8> {
    let mut v = Vec::new();
    p32(&mut v, nsym);
    p32(&mut v, 0); // lva_first_symbol
    p32(&mut v, lines.len() as u32);
    p32(&mut v, 0); // lva_first_line
    p32(&mut v, 0); // rva_first_code
    p32(&mut v, 0); // rva_last_code
    p32(&mut v, 0); // rva_first_data
    p32(&mut v, 0); // rva_last_data
    for &(addr, line) in lines {
        p32(&mut v, addr);
        p16(&mut v, line);
    }
    v.extend_from_slice(syms);
    p32(&mut v, strtab.len() as u32);
    v.extend_from_slice(strtab);
    v
}

/// A whole image holding the given COFF blocks, one directory entry each.
fn image(blocks: &[Vec<u8>]) -> Vec<u8> {
    let dirsz = 28 * blocks.len() as u32;
    let mut v = header(0, 0, dirsz);
    let mut off = 48 + dirsz;
    let mut dirs = Vec::new();
    for b in blocks {
        dirs.extend_from_slice(&dir_entry(1, off));
        off += b.len() as u32;
    }
    v.extend_from_slice(&dirs);
    for b in blocks {
        v.extend_from_slice(b);
    }
    v
}

#[test]
fn empty_input_truncated_header() {
    let r = DbgFile::load(&[]);
    assert!(matches!(r, Err(Error::Consume("header"))));
}

#[test]
fn wrong_magic() {
    let r = DbgFile::load(b"XY rest of the file");
    assert!(matches!(r, Err(Error::NotDebugInfo)));
}

#[test]
fn truncated_after_magic() {
    let r = DbgFile::load(b"DI");
    assert!(matches!(r, Err(Error::Consume("flags"))));
}

#[test]
fn empty_image_decodes_to_empty_tables() {
    let v = header(0, 0, 0);
    let d = DbgFile::load(&v).unwrap();
    assert_eq!(d.functions.len(), 0);
    assert_eq!(d.globals.len(), 0);
    assert_eq!(d.addr_to_line.len(), 0);
}

#[test]
fn invalid_debug_type_aborts() {
    let mut v = header(0, 0, 28);
    v.extend_from_slice(&dir_entry(77, 0));
    let r = DbgFile::load(&v);
    assert!(matches!(r, Err(Error::InvalidDebugType(77))));
}

#[test]
fn non_coff_entries_are_skipped() {
    let mut v = header(0, 0, 28);
    v.extend_from_slice(&dir_entry(2, 0xdead_beef));
    let d = DbgFile::load(&v).unwrap();
    assert_eq!(d.functions.len(), 0);
    assert_eq!(d.globals.len(), 0);
    assert_eq!(d.addr_to_line.len(), 0);
}

#[test]
fn debug_type_values() {
    assert_eq!(DebugType::try_from(0).unwrap(), DebugType::Unknown);
    assert_eq!(DebugType::try_from(1).unwrap(), DebugType::Coff);
    assert_eq!(DebugType::try_from(9).unwrap(), DebugType::Borland);
    assert!(matches!(DebugType::try_from(10), Err(Error::InvalidDebugType(10))));
}

/// One file marker, one static symbol covering `[0x1000, 0x1010)`, and
/// three line records of which the one at the range's end is excluded.
#[test]
fn line_correlation_round_trip() {
    let mut syms = file_sym("a.c");
    syms.extend_from_slice(&sym(*b"bar\0\0\0\0\0", 0x1000, 0, 3, &[len_aux(0x10)]));
    let blk = coff_block(&[(0x1000, 10), (0x1008, 11), (0x1010, 12)], &syms, 4, &[]);
    let v = image(&[blk]);
    let d = DbgFile::load(&v).unwrap();
    assert_eq!(
        d.addr_to_line.entries(),
        &vec![
            (0x1000u32, ("a.c".to_string(), 10u32)),
            (0x1008u32, ("a.c".to_string(), 11u32)),
        ]
    );
    assert_eq!(d.addr_to_line.get(0x1010), None);
}

#[test]
fn function_symbol_only_in_functions_table() {
    let mut syms = file_sym("a.c");
    syms.extend_from_slice(&sym(*b"foo\0\0\0\0\0", 0x2000, 0x20, 2, &[]));
    let blk = coff_block(&[], &syms, 3, &[]);
    let d = DbgFile::load(&image(&[blk])).unwrap();
    assert_eq!(d.functions.get(0x2000), Some(&"foo".to_string()));
    assert_eq!(d.globals.len(), 0);
}

#[test]
fn non_function_symbol_goes_to_globals() {
    let syms = sym(*b"gvar\0\0\0\0", 0x3000, 0, 2, &[]);
    let blk = coff_block(&[], &syms, 1, &[]);
    let d = DbgFile::load(&image(&[blk])).unwrap();
    assert_eq!(d.globals.get(0x3000), Some(&"gvar".to_string()));
    assert_eq!(d.functions.len(), 0);
}

#[test]
fn unknown_storage_class_aborts() {
    let mut blocks = Vec::new();
    let mut syms = file_sym("a.c");
    syms.extend_from_slice(&sym(*b"ok\0\0\0\0\0\0", 0x2000, 0x20, 2, &[]));
    blocks.push(coff_block(&[], &syms, 3, &[]));
    let bad = sym(*b"bad\0\0\0\0\0", 0x4000, 0, 200, &[]);
    blocks.push(coff_block(&[], &bad, 1, &[]));
    let r = DbgFile::load(&image(&blocks));
    assert!(matches!(r, Err(Error::UnknownSymbolClass(200))));
}

/// A failing block merges nothing, and what earlier blocks committed
/// stays as it was.
#[test]
fn failing_block_leaves_earlier_tables_untouched() {
    let good = coff_block(&[], &sym(*b"foo\0\0\0\0\0", 0x2000, 0x20, 2, &[]), 1, &[]);
    let bad = coff_block(&[], &sym(*b"bad\0\0\0\0\0", 0x4000, 0, 200, &[]), 1, &[]);
    let mut d = DbgFile::default();
    d.parse_coff(&good, 0).unwrap();
    assert_eq!(d.functions.get(0x2000), Some(&"foo".to_string()));
    let r = d.parse_coff(&bad, 0);
    assert!(matches!(r, Err(Error::UnknownSymbolClass(200))));
    assert_eq!(d.functions.entries(), &vec![(0x2000u32, "foo".to_string())]);
    assert_eq!(d.globals.len(), 0);
    assert_eq!(d.addr_to_line.len(), 0);
}

/// A static symbol with no auxiliary records maps no lines even though a
/// current file is active.
#[test]
fn static_symbol_without_aux_maps_no_lines() {
    let mut syms = file_sym("a.c");
    syms.extend_from_slice(&sym(*b"bar\0\0\0\0\0", 0x1000, 0, 3, &[]));
    let blk = coff_block(&[(0x1000, 10)], &syms, 3, &[]);
    let d = DbgFile::load(&image(&[blk])).unwrap();
    assert_eq!(d.addr_to_line.len(), 0);
    assert_eq!(d.globals.get(0x1000), Some(&"bar".to_string()));
}

/// Without a preceding file marker, a static symbol's range is silently
/// dropped from line correlation.
#[test]
fn static_symbol_without_file_maps_no_lines() {
    let syms = sym(*b"bar\0\0\0\0\0", 0x1000, 0, 3, &[len_aux(0x10)]);
    let blk = coff_block(&[(0x1000, 10)], &syms, 2, &[]);
    let d = DbgFile::load(&image(&[blk])).unwrap();
    assert_eq!(d.addr_to_line.len(), 0);
}

/// A name offset equal to the stored table's length is one past its end
/// and out of bounds.
#[test]
fn string_table_offset_at_end_is_out_of_bounds() {
    let strtab = b"foo\0";
    let mut name = [0u8; 8];
    name[4..].copy_from_slice(&8u32.to_le_bytes()); // 4 placeholder + 4 bytes
    let syms = sym(name, 0x2000, 0, 2, &[]);
    let blk = coff_block(&[], &syms, 1, strtab);
    let r = DbgFile::load(&image(&[blk]));
    assert!(matches!(r, Err(Error::SymbolNameOob)));
}

/// Offset 4 — just past the placeholder — names the first string.
#[test]
fn string_table_offset_resolves_first_string() {
    let strtab = b"longname\0second\0";
    let mut name = [0u8; 8];
    name[4..].copy_from_slice(&4u32.to_le_bytes());
    let syms = sym(name, 0x2000, 0x20, 2, &[]);
    let blk = coff_block(&[], &syms, 1, strtab);
    let d = DbgFile::load(&image(&[blk])).unwrap();
    assert_eq!(d.functions.get(0x2000), Some(&"longname".to_string()));
}

/// Offset 0 points into the zero placeholder bytes and resolves, to the
/// empty name.
#[test]
fn string_table_offset_zero_resolves() {
    let strtab = b"first\0";
    let name = [0u8; 8]; // offset 0
    let syms = sym(name, 0x2000, 0, 2, &[]);
    let blk = coff_block(&[], &syms, 1, strtab);
    let d = DbgFile::load(&image(&[blk])).unwrap();
    assert_eq!(d.globals.get(0x2000), Some(&"".to_string()));
}

/// A later symbol at the same RVA replaces the earlier name.
#[test]
fn later_symbol_at_same_rva_wins() {
    let mut syms = sym(*b"first\0\0\0", 0x2000, 0x20, 2, &[]);
    syms.extend_from_slice(&sym(*b"second\0\0", 0x2000, 0x20, 2, &[]));
    let blk = coff_block(&[], &syms, 2, &[]);
    let d = DbgFile::load(&image(&[blk])).unwrap();
    assert_eq!(d.functions.entries(), &vec![(0x2000u32, "second".to_string())]);
}

/// Line records arrive unsorted; correlation sees them sorted by
/// address.
#[test]
fn unsorted_line_records_are_sorted() {
    let mut syms = file_sym("s.c");
    syms.extend_from_slice(&sym(*b"f\0\0\0\0\0\0\0", 0x1000, 0, 3, &[len_aux(0x20)]));
    let blk = coff_block(&[(0x1010, 12), (0x1000, 10), (0x1008, 11)], &syms, 4, &[]);
    let d = DbgFile::load(&image(&[blk])).unwrap();
    assert_eq!(
        d.addr_to_line.entries(),
        &vec![
            (0x1000u32, ("s.c".to_string(), 10u32)),
            (0x1008u32, ("s.c".to_string(), 11u32)),
            (0x1010u32, ("s.c".to_string(), 12u32)),
        ]
    );
}

/// A source filename that is not valid UTF-8 is fatal.
#[test]
fn invalid_filename_utf8_aborts() {
    let mut aux = [0u8; 18];
    aux[0] = 0xff;
    aux[1] = 0xfe;
    let syms = sym(*b".file\0\0\0", 0, 0, 103, &[aux]);
    let blk = coff_block(&[], &syms, 2, &[]);
    let r = DbgFile::load(&image(&[blk]));
    assert!(matches!(r, Err(Error::FilenameUtf8)));
}

/// A symbol name that is not valid UTF-8 is decoded lossily, never
/// fatally: the ill-formed byte comes back replaced.
#[test]
fn invalid_symbol_name_is_replaced_not_fatal() {
    let mut name = *b"a\0\0\0\0\0\0\0";
    name[1] = 0xff;
    let syms = sym(name, 0x2000, 0, 2, &[]);
    let blk = coff_block(&[], &syms, 1, &[]);
    let d = DbgFile::load(&image(&[blk])).unwrap();
    assert_eq!(d.globals.get(0x2000), Some(&"a\u{fffd}".to_string()));
}

#[test]
fn truncated_string_table_aborts() {
    let mut blk = coff_block(&[], &[], 0, &[]);
    let sz = blk.len();
    blk[sz - 4..].copy_from_slice(&100u32.to_le_bytes()); // size field lies
    let r = DbgFile::load(&image(&[blk]));
    assert!(matches!(r, Err(Error::Consume("string table"))));
}

/// Decoding the same bytes twice yields identical tables.
#[test]
fn decode_is_deterministic() {
    let mut syms = file_sym("a.c");
    syms.extend_from_slice(&sym(*b"bar\0\0\0\0\0", 0x1000, 0, 3, &[len_aux(0x10)]));
    syms.extend_from_slice(&sym(*b"foo\0\0\0\0\0", 0x2000, 0x20, 2, &[]));
    let blk = coff_block(&[(0x1000, 10), (0x1000, 7)], &syms, 5, &[]);
    let v = image(&[blk]);
    let d1 = DbgFile::load(&v).unwrap();
    let d2 = DbgFile::load(&v).unwrap();
    assert_eq!(d1.functions.entries(), d2.functions.entries());
    assert_eq!(d1.globals.entries(), d2.globals.entries());
    assert_eq!(d1.addr_to_line.entries(), d2.addr_to_line.entries());
}

/// Table iteration is ascending by RVA whatever the input order.
#[test]
fn entries_are_ascending_by_rva() {
    let mut syms = sym(*b"c\0\0\0\0\0\0\0", 0x3000, 0x20, 2, &[]);
    syms.extend_from_slice(&sym(*b"a\0\0\0\0\0\0\0", 0x1000, 0x20, 2, &[]));
    syms.extend_from_slice(&sym(*b"b\0\0\0\0\0\0\0", 0x2000, 0x20, 2, &[]));
    let blk = coff_block(&[], &syms, 3, &[]);
    let d = DbgFile::load(&image(&[blk])).unwrap();
    let keys: Vec<u32> = d.functions.entries().iter().map(|p| p.0).collect();
    assert_eq!(keys, vec![0x1000, 0x2000, 0x3000]);
}

/// The 16-bit line number is widened to 32 bits in the output table.
#[test]
fn line_number_is_widened() {
    let mut syms = file_sym("w.c");
    syms.extend_from_slice(&sym(*b"f\0\0\0\0\0\0\0", 0x1000, 0, 3, &[len_aux(8)]));
    let blk = coff_block(&[(0x1000, 0xffff)], &syms, 4, &[]);
    let d = DbgFile::load(&image(&[blk])).unwrap();
    assert_eq!(d.addr_to_line.get(0x1000), Some(&("w.c".to_string(), 0xffffu32)));
}

/// Section headers and the exported-names blob only move the read
/// position; a COFF block after them is still found.
#[test]
fn sections_and_exported_names_are_stepped_over() {
    let blk = coff_block(&[], &sym(*b"foo\0\0\0\0\0", 0x2000, 0x20, 2, &[]), 1, &[]);
    let expnames = b"Alpha\0";
    let mut v = header(1, expnames.len() as u32, 28);
    let mut section = Vec::new();
    section.extend_from_slice(b".text\0\0\0");
    for _ in 0..7 {
        p32(&mut section, 0);
    }
    p32(&mut section, 0);
    assert_eq!(section.len(), 40);
    v.extend_from_slice(&section);
    v.extend_from_slice(expnames);
    let coff_off = (v.len() + 28) as u32;
    v.extend_from_slice(&dir_entry(1, coff_off));
    v.extend_from_slice(&blk);
    let d = DbgFile::load(&v).unwrap();
    assert_eq!(d.functions.get(0x2000), Some(&"foo".to_string()));
}

/// A truncated section header is reported by the field that was cut.
#[test]
fn truncated_section_header_names_the_field() {
    let mut v = header(1, 0, 0);
    v.extend_from_slice(b".text\0\0\0"); // name fits, vsize does not
    let r = DbgFile::load(&v);
    assert!(matches!(r, Err(Error::Consume("vsize"))));
}

/// A COFF pointer past the end of the input fails on the block's first
/// field.
#[test]
fn coff_pointer_past_end_is_truncation() {
    let mut v = header(0, 0, 28);
    v.extend_from_slice(&dir_entry(1, 0xffff_0000));
    let r = DbgFile::load(&v);
    assert!(matches!(r, Err(Error::Consume("num_symbols"))));
}
