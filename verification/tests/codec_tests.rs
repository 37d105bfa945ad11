//! Tests of the object and symbol file formats, and of the command-line
//! parser.

use lc3_asm_vm::assemble::{
    Assembler, ExecutableImageIn, MemoryWrite, Symbol, SymbolStatus, TrapInstruction,
};
use lc3_asm_vm::file_io::{
    bytes_to_words, image_to_bytes, image_to_words, symbol_line, symbols_from_lines,
    words_to_bytes,
};
use lc3_asm_vm::{parse_arguments, CliRequest};

fn assemble_source(
    lines: &[&str],
) -> lc3_asm_vm::assemble::ExecutableImageOut {
    let mut assembler = Assembler::new("test.asm");
    let raw: Vec<String> = lines.iter().map(|l| l.to_string()).collect();
    assembler.load_lines(raw);
    assembler.assemble(&Vec::new()).unwrap()
}

#[test]
fn words_are_split_big_endian() {
    let ws = vec![0x3000u16, 0x12A3];
    let bs = words_to_bytes(&ws);
    assert_eq!(bs, vec![0x30, 0x00, 0x12, 0xA3]);
    let back = bytes_to_words(&bs).unwrap();
    assert_eq!(back, ws);
}

#[test]
fn odd_or_empty_byte_lists_are_invalid() {
    assert!(bytes_to_words(&vec![]).is_err());
    assert!(bytes_to_words(&vec![1, 2, 3]).is_err());
}

#[test]
fn object_roundtrip_gives_value_equal_image() {
    let img = assemble_source(&[
        ".ORIG x3000",
        "MSG .STRINGZ \"Hi\"",
        "LEA R0,MSG",
        "PUTS",
        "HALT",
        ".END",
    ]);
    let bytes = image_to_bytes(&img);
    let words = bytes_to_words(&bytes).unwrap();
    let back = ExecutableImageIn::from_binary(words).unwrap();
    assert_eq!(back.origin, img.origin);
    let expected: Vec<u16> = img
        .instructions
        .iter()
        .map(|w| w.value)
        .chain(img.data.iter().map(|w| w.value))
        .collect();
    assert_eq!(back.data, expected);
    assert_eq!(image_to_words(&img).len(), 1 + expected.len());
}

#[test]
fn symbol_records_roundtrip_through_text() {
    let syms = vec![
        Symbol {
            name: String::from("MAIN"),
            rel_addr: 0,
            abs_addr: 0x3000,
            src_ln_number: 2,
            size_in_words: 1,
            status: SymbolStatus::Export,
        },
        Symbol {
            name: String::from("BUF"),
            rel_addr: 16,
            abs_addr: 0x3010,
            src_ln_number: 5,
            size_in_words: 8,
            status: SymbolStatus::Private,
        },
        Symbol {
            name: String::from("FAR"),
            rel_addr: 0xF000,
            abs_addr: 0x2000,
            src_ln_number: 7,
            size_in_words: 1,
            status: SymbolStatus::Import,
        },
    ];
    let lines: Vec<String> = syms.iter().map(symbol_line).collect();
    assert_eq!(lines[0], "MAIN #0 x3000 1");
    // A relative address with the sign bit set prints as a signed decimal.
    assert_eq!(lines[2], "FAR #-4096 x2000 2");
    let parsed = symbols_from_lines(&lines).unwrap();
    assert_eq!(parsed.len(), 3);
    for (a, b) in syms.iter().zip(parsed.iter()) {
        assert_eq!(a.name, b.name);
        assert_eq!(a.rel_addr, b.rel_addr);
        assert_eq!(a.abs_addr, b.abs_addr);
        assert_eq!(a.status, b.status);
    }
}

#[test]
fn malformed_symbol_records_are_invalid() {
    assert!(symbols_from_lines(&vec![String::from("ONLY #1")]).is_err());
    assert!(symbols_from_lines(&vec![String::from("A #0 x10 9")]).is_err());
}

#[test]
fn trap_images_carry_their_words() {
    let img = assemble_source(&[".ORIG x0400", "HALT", "DATA .FILL #7", ".END"]);
    let trap = TrapInstruction::from_image(&img, 0x25);
    assert_eq!(trap.origin, 0x0400);
    assert_eq!(trap.trap_vector, 0x25);
    assert_eq!(trap.instructions, vec![0xF025]);
    assert_eq!(trap.memory_writes, vec![(0x0401, 7)]);
    let mw = MemoryWrite {
        rel_addr: 1,
        value: 7,
    };
    assert_eq!(img.data[0], mw);
}

#[test]
fn cli_assemble_request() {
    let args: Vec<String> = ["lc3", "asm", "prog.asm", "--case-sensitive", "--no-sym-file"]
        .iter()
        .map(|s| s.to_string())
        .collect();
    match parse_arguments(args).unwrap() {
        CliRequest::Assemble {
            src_file,
            output_file,
            external_files,
            flags,
        } => {
            assert_eq!(src_file, "prog.asm");
            assert_eq!(output_file, "prog.obj");
            assert!(external_files.is_empty());
            assert!(!flags.case_insensitive_labels);
            assert!(!flags.output_symbol_file);
            assert!(!flags.verbose_log);
        }
        _ => panic!("expected an assemble request"),
    }
}

#[test]
fn cli_assemble_with_link_files() {
    let args: Vec<String> = ["lc3", "asm", "prog.asm", "--link", "a.obj.sym", "b.obj.sym"]
        .iter()
        .map(|s| s.to_string())
        .collect();
    match parse_arguments(args).unwrap() {
        CliRequest::Assemble { external_files, .. } => {
            assert_eq!(external_files, vec!["a.obj.sym", "b.obj.sym"]);
        }
        _ => panic!("expected an assemble request"),
    }
}

#[test]
fn cli_load_request_and_errors() {
    let args: Vec<String> = ["lc3", "load", "a.obj", "b.obj"]
        .iter()
        .map(|s| s.to_string())
        .collect();
    match parse_arguments(args).unwrap() {
        CliRequest::LoadRun {
            primary,
            companions,
        } => {
            assert_eq!(primary, "a.obj");
            assert_eq!(companions, vec!["b.obj"]);
        }
        _ => panic!("expected a load request"),
    }

    let too_few: Vec<String> = ["lc3", "asm"].iter().map(|s| s.to_string()).collect();
    assert!(parse_arguments(too_few).is_err());

    let bad: Vec<String> = ["lc3", "frobnicate", "x"]
        .iter()
        .map(|s| s.to_string())
        .collect();
    assert!(parse_arguments(bad).is_err());

    let dangling: Vec<String> = ["lc3", "asm", "p.asm", "--link"]
        .iter()
        .map(|s| s.to_string())
        .collect();
    assert!(parse_arguments(dangling).is_err());
}
