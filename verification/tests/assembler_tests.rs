//! End-to-end assembler scenarios: single instructions, loops with
//! backward branches, string data before code, linking against exports,
//! overlap detection, and the field-range boundaries.

use lc3_asm_vm::assemble::{
    Assembler, ExecutableImageIn, InstructionSet, MemoryWrite, Symbol, SymbolStatus,
};
use lc3_asm_vm::tokenizer::Token;

fn assemble_lines(lines: &[&str], ext: Vec<Symbol>) -> Result<
    lc3_asm_vm::assemble::ExecutableImageOut,
    Vec<lc3_asm_vm::error::AsmblrErr>,
> {
    let mut assembler = Assembler::new("test.asm");
    let raw: Vec<String> = lines.iter().map(|l| l.to_string()).collect();
    assembler.load_lines(raw);
    assembler.assemble(&ext)
}

fn words_of(img: &lc3_asm_vm::assemble::ExecutableImageOut) -> Vec<(u16, u16)> {
    img.instructions
        .iter()
        .map(|w| (w.rel_addr, w.value))
        .collect()
}

#[test]
fn assemble_single_add_immediate() {
    let img = assemble_lines(&[".ORIG x3000", "ADD R1, R2, #3", ".END"], Vec::new()).unwrap();
    assert_eq!(img.origin, 0x3000);
    // 0001_001_010_1_00011: opcode, R1, R2, immediate mode, +3.
    assert_eq!(words_of(&img), vec![(0, 0x12A3)]);
    assert!(img.data.is_empty());
}

#[test]
fn assemble_backward_branch() {
    let img = assemble_lines(
        &[".ORIG x3000", "LOOP ADD R0,R0,#-1", "BRp LOOP", ".END"],
        Vec::new(),
    )
    .unwrap();
    assert_eq!(img.origin, 0x3000);
    assert_eq!(words_of(&img), vec![(0, 0x103F), (1, 0x03FE)]);
}

#[test]
fn assemble_string_data_before_code() {
    let img = assemble_lines(
        &[
            ".ORIG x3000",
            "MSG .STRINGZ \"Hi\"",
            "LEA R0,MSG",
            "PUTS",
            "HALT",
            ".END",
        ],
        Vec::new(),
    )
    .unwrap();
    assert_eq!(img.origin, 0x3000);
    let data: Vec<(u16, u16)> = img.data.iter().map(|w| (w.rel_addr, w.value)).collect();
    assert_eq!(data, vec![(0, 'H' as u16), (1, 'i' as u16), (2, 0)]);
    // LEA is placed after the three data words; offset9 is -4 against the
    // incremented program counter.
    assert_eq!(
        words_of(&img),
        vec![(3, 0xE000 | 0x1FC), (4, 0xF022), (5, 0xF025)]
    );
}

#[test]
fn link_import_against_export() {
    let companion = vec![Symbol {
        name: String::from("PRINT"),
        rel_addr: 0,
        abs_addr: 0x4100,
        src_ln_number: 0,
        size_in_words: 1,
        status: SymbolStatus::Export,
    }];
    let img = assemble_lines(
        &[".ORIG x4000", "PRINT .IMPORT", "JSR PRINT", ".END"],
        companion,
    )
    .unwrap();
    // offset11 = 0x4100 - (0x4000 + 1) = 0xFF.
    assert_eq!(words_of(&img), vec![(0, 0x4800 | 0x0FF)]);
    let print_sym = img
        .symbol_table
        .iter()
        .find(|s| s.name == "PRINT")
        .unwrap();
    assert_eq!(print_sym.abs_addr, 0x4100);
    assert_eq!(print_sym.rel_addr, 0x0100);
}

#[test]
fn link_unresolved_import_fails() {
    let r = assemble_lines(
        &[".ORIG x4000", "PRINT .IMPORT", "JSR PRINT", ".END"],
        Vec::new(),
    );
    assert!(r.is_err());
}

#[test]
fn overlap_is_reported_with_both_ranges() {
    let imgs = vec![
        ExecutableImageIn {
            origin: 0x3000,
            data: vec![1, 2, 3, 4],
        },
        ExecutableImageIn {
            origin: 0x3002,
            data: vec![5],
        },
    ];
    let overlap = ExecutableImageIn::images_overlap(&imgs);
    assert_eq!(overlap, Some(((0x3000, 0x3003), (0x3002, 0x3002))));

    let disjoint = vec![
        ExecutableImageIn {
            origin: 0x3000,
            data: vec![1, 2],
        },
        ExecutableImageIn {
            origin: 0x3002,
            data: vec![5],
        },
    ];
    assert_eq!(ExecutableImageIn::images_overlap(&disjoint), None);
}

#[test]
fn binary_literals_as_operands() {
    let img = assemble_lines(&[".ORIG x3000", "ADD R0,R0,b101", ".END"], Vec::new()).unwrap();
    let same = assemble_lines(&[".ORIG x3000", "ADD R0,R0,#5", ".END"], Vec::new()).unwrap();
    assert_eq!(words_of(&img), words_of(&same));
    let fill = assemble_lines(&[".ORIG x3000", "A .FILL b1010", ".END"], Vec::new()).unwrap();
    assert_eq!(fill.data[0].value, 10);
}

#[test]
fn getc_assembles_to_its_trap_vector() {
    let img = assemble_lines(&[".ORIG x3000", "GETC", ".END"], Vec::new()).unwrap();
    assert_eq!(words_of(&img), vec![(0, 0xF020)]);
}

#[test]
fn imm5_boundaries() {
    let neg = assemble_lines(&[".ORIG x3000", "ADD R0,R0,#-16", ".END"], Vec::new()).unwrap();
    assert_eq!(words_of(&neg)[0].1 & 0x1F, 0b10000);

    let pos = assemble_lines(&[".ORIG x3000", "ADD R0,R0,#15", ".END"], Vec::new()).unwrap();
    assert_eq!(words_of(&pos)[0].1 & 0x1F, 0b01111);

    let over = assemble_lines(&[".ORIG x3000", "ADD R0,R0,#16", ".END"], Vec::new());
    assert!(over.is_err());
}

#[test]
fn offset9_boundaries() {
    let back = assemble_lines(
        &[".ORIG x3000", "LBL .BLKW #255", "BR LBL", ".END"],
        Vec::new(),
    )
    .unwrap();
    // The branch stands at relative address 255; its target is relative
    // address 0, giving offset -256.
    let w = back
        .instructions
        .iter()
        .find(|w| w.rel_addr == 255)
        .unwrap()
        .value;
    assert_eq!(w & 0x1FF, 0x100);

    let fwd = assemble_lines(
        &[".ORIG x3000", "BR FWD", ".BLKW #255", "FWD .FILL #1", ".END"],
        Vec::new(),
    )
    .unwrap();
    let w = fwd
        .instructions
        .iter()
        .find(|w| w.rel_addr == 0)
        .unwrap()
        .value;
    assert_eq!(w & 0x1FF, 255);

    let too_far = assemble_lines(
        &[".ORIG x3000", "LBL .BLKW #256", "BR LBL", ".END"],
        Vec::new(),
    );
    assert!(too_far.is_err());
}

#[test]
fn blkw_zero_reserves_nothing() {
    let img = assemble_lines(
        &[".ORIG x3000", "A .BLKW #0", "B .FILL #7", ".END"],
        Vec::new(),
    )
    .unwrap();
    let data: Vec<(u16, u16)> = img.data.iter().map(|w| (w.rel_addr, w.value)).collect();
    assert_eq!(data, vec![(0, 7)]);
    let a = img.symbol_table.iter().find(|s| s.name == "A").unwrap();
    let b = img.symbol_table.iter().find(|s| s.name == "B").unwrap();
    assert_eq!(a.rel_addr, 0);
    assert_eq!(b.rel_addr, 0);
}

#[test]
fn stringz_empty_reserves_terminator() {
    let img = assemble_lines(
        &[".ORIG x3000", "S .STRINGZ \"\"", "X .FILL #5", ".END"],
        Vec::new(),
    )
    .unwrap();
    let data: Vec<(u16, u16)> = img.data.iter().map(|w| (w.rel_addr, w.value)).collect();
    assert_eq!(data, vec![(0, 0), (1, 5)]);
    let s = img.symbol_table.iter().find(|sym| sym.name == "S").unwrap();
    assert_eq!(s.size_in_words, 1);
    let x = img.symbol_table.iter().find(|sym| sym.name == "X").unwrap();
    assert_eq!(x.rel_addr, 1);
}

#[test]
fn label_alone_binds_next_line() {
    let img = assemble_lines(
        &[".ORIG x3000", "LBL", "ADD R0,R0,#1", ".END"],
        Vec::new(),
    )
    .unwrap();
    let lbl = img.symbol_table.iter().find(|s| s.name == "LBL").unwrap();
    assert_eq!(lbl.rel_addr, 0);
    assert_eq!(words_of(&img), vec![(0, 0x1000 | 0x20 | 1)]);
}

#[test]
fn symbols_absolute_equals_origin_plus_relative() {
    let img = assemble_lines(
        &[
            ".ORIG x3000",
            "A .FILL #1",
            "B .STRINGZ \"xy\"",
            "C ADD R0,R0,#0",
            ".END",
        ],
        Vec::new(),
    )
    .unwrap();
    for sym in &img.symbol_table {
        assert_eq!(sym.abs_addr, 0x3000 + sym.rel_addr);
    }
    let c = img.symbol_table.iter().find(|s| s.name == "C").unwrap();
    assert_eq!(c.rel_addr, 4);
}

#[test]
fn encoded_words_respect_required_and_forbidden_masks() {
    let table = InstructionSet::define_instruction_set();
    let cases = [
        (".ORIG x3000", "ADD R1, R1, #3", "ADD"),
        (".ORIG x3000", "BRp LBL", "BRP"),
        (".ORIG x3000", "JSRR R3", "JSRR"),
        (".ORIG x3000", "NOT R1, R2", "NOT"),
        (".ORIG x3000", "RET", "RET"),
    ];
    for (orig, line, mnemonic) in cases {
        let src = if line.contains("LBL") {
            vec![orig, "LBL ADD R0,R0,#0", line, ".END"]
        } else {
            vec![orig, line, ".END"]
        };
        let img = assemble_lines(&src, Vec::new()).unwrap();
        let w = img.instructions.last().unwrap().value;
        let k = table.find(mnemonic).unwrap();
        let d = &table.entries[k].1;
        assert_eq!(w & d.flags_word, d.flags_word);
        assert_eq!(w & 0xF000, d.opcode);
        assert_eq!(w & d.not_flags_word, 0);
    }
}

#[test]
fn encode_then_disassemble_then_encode_again() {
    let table = InstructionSet::define_instruction_set();
    let words = [0x1263u16, 0xC1C0, 0x5020, 0x40C0, 0x9FFF];
    for w in words {
        let tokens = table
            .disassemble_tokens(w, 1, &Vec::new())
            .expect("no variant matched");
        let printed = Token::print_tokens(&tokens);
        let img = assemble_lines(
            &[".ORIG x0000", printed.as_str(), ".END"],
            Vec::new(),
        )
        .unwrap();
        assert_eq!(img.instructions[0].value, w, "failed for {printed}");
    }
}

#[test]
fn duplicate_label_is_an_error() {
    let r = assemble_lines(
        &[".ORIG x3000", "A .FILL #1", "A .FILL #2", ".END"],
        Vec::new(),
    );
    let errors = r.unwrap_err();
    // Both definition sites are reported: the colliding line and the line
    // of the earlier definition.
    assert!(errors.iter().any(|e| e.line_number == Some(3)));
    assert!(errors.iter().any(|e| e.line_number == Some(2)));
}

#[test]
fn undefined_label_is_an_error() {
    let r = assemble_lines(&[".ORIG x3000", "LD R0, NOWHERE", ".END"], Vec::new());
    assert!(r.is_err());
}

#[test]
fn missing_origin_is_an_error() {
    let r = assemble_lines(&["ADD R0,R0,#1", ".END"], Vec::new());
    assert!(r.is_err());
    let r = assemble_lines(&[".ORIG x3000", "ADD R0,R0,#1"], Vec::new());
    assert!(r.is_err());
}

#[test]
fn comments_and_leading_block_are_stripped() {
    let img = assemble_lines(
        &[
            "; a file comment",
            "; another",
            ".ORIG x3000 ; origin",
            "ADD R1, R2, #3 ; add",
            ".END",
        ],
        Vec::new(),
    )
    .unwrap();
    assert_eq!(words_of(&img), vec![(0, 0x12A3)]);
}

#[test]
fn case_insensitive_labels_by_default() {
    let img = assemble_lines(
        &[".ORIG x3000", "Loop ADD R0,R0,#-1", "BRp LOOP", ".END"],
        Vec::new(),
    )
    .unwrap();
    assert_eq!(words_of(&img), vec![(0, 0x103F), (1, 0x03FE)]);

    let mut assembler = Assembler::new("test.asm");
    assembler.ignore_case_for_labels(false);
    let raw: Vec<String> = [".ORIG x3000", "Loop ADD R0,R0,#-1", "BRp LOOP", ".END"]
        .iter()
        .map(|l| l.to_string())
        .collect();
    assembler.load_lines(raw);
    assert!(assembler.assemble(&Vec::new()).is_err());
}

#[test]
fn token_shape_and_validity() {
    let reg = Token::Register(3);
    let lbl = Token::Label(String::from("X"));
    assert!(reg.is(&Token::Register(0)));
    assert!(!reg.is(&lbl));
    assert!(Token::is_directive("ORIG"));
    assert!(!Token::is_directive("orig"));
    assert!(lc3_asm_vm::tokenizer::is_instruction("add"));
    assert!(!lc3_asm_vm::tokenizer::is_instruction("frobnicate"));
    let mw = MemoryWrite {
        rel_addr: 1,
        value: 2,
    };
    assert_eq!(mw, MemoryWrite { rel_addr: 1, value: 2 });
}
