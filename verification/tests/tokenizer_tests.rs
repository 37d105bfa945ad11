//! Tests of the lexer: single tokens, numbers of every radix, directives,
//! and whole token streams.

use lc3_asm_vm::binary_utils::bits_required_for_number;
use lc3_asm_vm::tokenizer::{NumberLiteral, Sign, Token};

fn expect_tokens(string: &str, expected: Vec<Token>) {
    let actual = Token::tokenize_str(string);
    assert_eq!(actual.len(), expected.len());

    let mut actual = actual.into_iter();
    let mut expected = expected.into_iter();
    while let Some(token) = actual.next() {
        let exp = match expected.next() {
            Some(exp) => exp,
            None => {
                println!("Unexpected error.");
                return;
            }
        };
        assert!(exp.is(&token));
        assert!(exp.is_exact(&token))
    }
}

fn expect_hex_literal(str: &str, sign: Sign, value: u16, bits: u16) {
    expect_tokens(
        str,
        vec![Token::HexLiteral(NumberLiteral { sign, value, bits })],
    );
}

fn expect_dec_literal(str: &str, sign: Sign, value: u16, bits: u16) {
    expect_tokens(
        str,
        vec![Token::DecimalLiteral(NumberLiteral { sign, value, bits })],
    );
}

fn expect_bin_literal(str: &str, sign: Sign, value: u16, bits: u16) {
    expect_tokens(
        str,
        vec![Token::BinLiteral(NumberLiteral { sign, value, bits })],
    );
}

fn expect_directive(str: &str, directive: &str) {
    expect_tokens(str, vec![Token::Directive(String::from(directive))]);
}

fn expect_err(string: &str) {
    assert!(Token::tokenize_str_w_err(string).is_err())
}

#[test]
pub fn individual_tokens() {
    expect_tokens("LABEL", vec![Token::Label(String::from("LABEL"))]);
    expect_tokens(
        "\"An example string...\" ",
        vec![Token::StringLiteral(String::from("An example string..."))],
    );
}

#[test]
pub fn numbers_pass() {
    expect_hex_literal("xF1", Sign::PLUS, 0xf1, bits_required_for_number(0xf1));
    expect_hex_literal(
        "x-F1",
        Sign::MINUS,
        0xf1,
        bits_required_for_number(1 + !0xf1),
    );

    expect_bin_literal("b1000", Sign::PLUS, 8, 4);
    expect_bin_literal("b0", Sign::PLUS, 0, 0);

    expect_dec_literal("#50", Sign::PLUS, 50, bits_required_for_number(50));
    expect_dec_literal("#-50", Sign::MINUS, 50, bits_required_for_number(1 + !50));
}

#[test]
pub fn numbers_fail() {
    expect_err("#5FF");
    expect_err("b22");
    expect_err("#--1");
    expect_err("xFFFFF");
    expect_err("xG");
    expect_err("#");
    expect_err("x,");
    expect_err("x-")
}

#[test]
pub fn directives_pass() {
    expect_directive(".ORIG", "ORIG");
    expect_directive(".END", "END");
    expect_directive(".FILL", "FILL");
    expect_directive(".BLKW", "BLKW");
    expect_directive(".STRINGZ", "STRINGZ");
    expect_directive(".EXPORT", "EXPORT");
    expect_directive(".IMPORT", "IMPORT");
}

#[test]
pub fn directives_fail() {
    expect_err(".");
    expect_err(".F1LL");
    expect_err(".,");
    expect_err(".RANDOM");
    expect_err(". ");
}

#[test]
pub fn tokenize_stream_pass() {
    expect_tokens(
        "ADD R0, R1, #5",
        vec![
            Token::Instruction(String::from("ADD")),
            Token::Register(0),
            Token::Comma,
            Token::Register(1),
            Token::Comma,
            Token::DecimalLiteral(NumberLiteral {
                sign: Sign::PLUS,
                value: 5,
                bits: 3,
            }),
        ],
    );
    expect_tokens(
        "$f .EXPORT LDI R0, ADDR",
        vec![
            Token::Label(String::from("$f")),
            Token::Directive(String::from("EXPORT")),
            Token::Instruction(String::from("LDI")),
            Token::Register(0),
            Token::Comma,
            Token::Label(String::from("ADDR")),
        ],
    );
}

#[test]
pub fn tokenize_stream_fail() {
    expect_err("message .STRINGZ \"abcdefg");
    expect_err("ADD R9, R0, #5");
    expect_err("ADD x #");
}

#[test]
pub fn printing_then_tokenizing_is_identity() {
    let cases = [
        "ADD R0, R1, #5",
        "$f .EXPORT LDI R0, ADDR",
        "LOOP ADD R7, R2, #-16",
        "MSG .STRINGZ \"Hi there\"",
        ".ORIG x3000",
        "TRAP x25",
        "A .BLKW #3",
        "ADD R0, R0, b-10000",
    ];
    for case in cases {
        let tokens = Token::tokenize_str(case);
        let printed = Token::print_tokens(&tokens);
        let again = Token::tokenize_str(printed.as_str());
        assert_eq!(tokens.len(), again.len());
        for (a, b) in tokens.iter().zip(again.iter()) {
            assert!(a.is_exact(b));
        }
    }
}
