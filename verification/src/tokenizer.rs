//! Lexer for the assembler source language: one comment-stripped physical
//! line becomes an ordered token sequence or a syntax error.
//!
//! The language is specified by the spec-level scanner `lex_line_spec`; the
//! executable scanner is proved to return exactly what it says.

use vstd::prelude::*;
use vstd::string::*;
use crate::binary_utils::bits_for;

verus! {

/// One physical source line: its text, its relative index among processed
/// lines, and its 1-based line number in the file for diagnostics.
#[derive(Clone, Debug)]
pub struct SourceLine {
    pub text: String,
    pub number: u16,
    pub actual_line: u16,
}

impl SourceLine {
    pub fn new(text: &str, number: u16, actual_line: u16) -> (r: Self)
        ensures
            r.text@ == text@,
            r.number == number,
            r.actual_line == actual_line,
    {
        SourceLine { text: text.to_owned(), number, actual_line }
    }
}

/// The mathematical shape of a source line.
pub struct SourceLineModel {
    pub text: Seq<char>,
    pub number: u16,
    pub actual_line: u16,
}

impl View for SourceLine {
    type V = SourceLineModel;

    open spec fn view(&self) -> SourceLineModel {
        SourceLineModel { text: self.text@, number: self.number, actual_line: self.actual_line }
    }
}

/// Sign of a number literal.
#[derive(Clone, Copy, Debug, PartialEq, Eq, Structural)]
pub enum Sign {
    PLUS,
    MINUS,
}

/// A number literal: a sign, a magnitude, and the minimum bit width the
/// magnitude needs.
#[derive(Clone, Copy, Debug)]
pub struct NumberLiteral {
    pub sign: Sign,
    pub value: u16,
    pub bits: u16,
}

impl NumberLiteral {
    pub fn new() -> (r: Self)
        ensures
            r.sign == Sign::PLUS,
            r.value == 0,
            r.bits == 0,
    {
        NumberLiteral { sign: Sign::PLUS, value: 0, bits: 0 }
    }
}

/// One lexical token of the source language.
#[derive(Clone, Debug)]
pub enum Token {
    DecimalLiteral(NumberLiteral),
    HexLiteral(NumberLiteral),
    BinLiteral(NumberLiteral),
    Register(u16),
    Label(String),
    Comma,
    Instruction(String),
    Directive(String),
    StringLiteral(String),
}

/// The mathematical shape of a token: text payloads become character
/// sequences.
pub enum TokenModel {
    DecimalLiteral(NumberLiteral),
    HexLiteral(NumberLiteral),
    BinLiteral(NumberLiteral),
    Register(u16),
    Label(Seq<char>),
    Comma,
    Instruction(Seq<char>),
    Directive(Seq<char>),
    StringLiteral(Seq<char>),
}

impl View for Token {
    type V = TokenModel;

    open spec fn view(&self) -> TokenModel {
        match self {
            Token::DecimalLiteral(n) => TokenModel::DecimalLiteral(*n),
            Token::HexLiteral(n) => TokenModel::HexLiteral(*n),
            Token::BinLiteral(n) => TokenModel::BinLiteral(*n),
            Token::Register(r) => TokenModel::Register(*r),
            Token::Label(s) => TokenModel::Label(s@),
            Token::Comma => TokenModel::Comma,
            Token::Instruction(s) => TokenModel::Instruction(s@),
            Token::Directive(s) => TokenModel::Directive(s@),
            Token::StringLiteral(s) => TokenModel::StringLiteral(s@),
        }
    }
}

/// The models of a token vector, in order.
pub open spec fn tokens_model(ts: Seq<Token>) -> Seq<TokenModel> {
    ts.map_values(|t: Token| t@)
}

// ---------------------------------------------------------------------------
// Character classes
// ---------------------------------------------------------------------------

/// Whitespace separates tokens.
pub open spec fn is_ws(c: char) -> bool {
    c == ' ' || c == '\t' || c == '\n'
}

/// Decimal digit.
pub open spec fn is_dec_digit(c: char) -> bool {
    48 <= c as u32 <= 57
}

/// Digit of the given radix (2, 10 or 16; hex digits in either case).
pub open spec fn is_digit_of(c: char, base: u32) -> bool {
    if base == 16 {
        48 <= c as u32 <= 57 || 97 <= c as u32 <= 102 || 65 <= c as u32 <= 70
    } else if base == 10 {
        48 <= c as u32 <= 57
    } else {
        c == '0' || c == '1'
    }
}

/// The numeric value of a digit character of any supported radix.
pub open spec fn digit_val(c: char) -> u32 {
    if 48 <= c as u32 <= 57 {
        (c as u32 - 48) as u32
    } else if 97 <= c as u32 <= 102 {
        (c as u32 - 87) as u32
    } else if 65 <= c as u32 <= 70 {
        (c as u32 - 55) as u32
    } else {
        0
    }
}

/// ASCII letter.
pub open spec fn is_alpha(c: char) -> bool {
    65 <= c as u32 <= 90 || 97 <= c as u32 <= 122
}

/// A character that may stand inside a label, mnemonic or register name:
/// any printable ASCII character except the comma separator.
pub open spec fn is_ident_char(c: char) -> bool {
    33 <= c as u32 <= 126 && c != ','
}

/// The value of an unsigned digit string under the given radix, most
/// significant digit first.
pub open spec fn digits_val(s: Seq<char>, base: u32) -> nat
    decreases s.len(),
{
    if s.len() == 0 {
        0
    } else {
        (digits_val(s.drop_last(), base) * base + digit_val(s.last())) as nat
    }
}

// ---------------------------------------------------------------------------
// The spec-level scanner
// ---------------------------------------------------------------------------

/// First index at or after `i` whose character fails `p`, or the end of the
/// sequence.
pub open spec fn run_end(s: Seq<char>, i: nat, p: spec_fn(char) -> bool) -> nat
    decreases s.len() - i,
{
    if i >= s.len() {
        s.len()
    } else if p(s[i as int]) {
        run_end(s, i + 1, p)
    } else {
        i
    }
}

pub proof fn lemma_run_end(s: Seq<char>, i: nat, p: spec_fn(char) -> bool)
    requires
        i <= s.len(),
    ensures
        i <= run_end(s, i, p) <= s.len(),
        forall|j: int| i <= j < run_end(s, i, p) ==> p(s[j]),
        run_end(s, i, p) < s.len() ==> !p(s[run_end(s, i, p) as int]),
    decreases s.len() - i,
{
    if i < s.len() && p(s[i as int]) {
        lemma_run_end(s, i + 1, p);
    }
}

/// A token ends here: at the end of the line, at whitespace, or at a comma.
pub open spec fn is_term_at(s: Seq<char>, j: nat) -> bool {
    j >= s.len() || is_ws(s[j as int]) || s[j as int] == ','
}

/// What the scanner finds at one position: the end of the line, a syntax
/// error, or one token together with the position just after it.
pub enum NextTok {
    TokEnd,
    TokErr,
    TokAt(TokenModel, nat),
}

/// The number-literal token of the given radix, sign and magnitude.
pub open spec fn num_token(base: u32, neg: bool, v: u16) -> TokenModel {
    let lit = NumberLiteral {
        sign: if neg {
            Sign::MINUS
        } else {
            Sign::PLUS
        },
        value: v,
        bits: bits_for(v),
    };
    if base == 10 {
        TokenModel::DecimalLiteral(lit)
    } else if base == 2 {
        TokenModel::BinLiteral(lit)
    } else {
        TokenModel::HexLiteral(lit)
    }
}

/// Scans a number literal whose digits begin at `j` (after any radix
/// prefix): an optional minus sign, one or more digits of the radix, a
/// token terminator, and a magnitude of at most `0xFFFF`.
pub open spec fn scan_number(s: Seq<char>, j: nat, base: u32) -> NextTok {
    let neg = j < s.len() && s[j as int] == '-';
    let k = if neg {
        j + 1
    } else {
        j
    };
    let e = run_end(s, k, |c: char| is_digit_of(c, base));
    if e == k {
        NextTok::TokErr
    } else if !is_term_at(s, e) {
        NextTok::TokErr
    } else {
        let v = digits_val(s.subrange(k as int, e as int), base);
        if v > 0xFFFF {
            NextTok::TokErr
        } else {
            NextTok::TokAt(num_token(base, neg, v as u16), e)
        }
    }
}

/// The directive names the language knows.
pub open spec fn is_directive_name(s: Seq<char>) -> bool {
    s == "BLKW"@ || s == "FILL"@ || s == "ORIG"@ || s == "END"@ || s == "STRINGZ"@ || s
        == "IMPORT"@ || s == "EXPORT"@
}

/// Case-insensitive equality of two characters.
pub open spec fn eq_ci(a: char, b: char) -> bool {
    a as u32 == b as u32 || (97 <= a as u32 <= 122 && a as u32 - 32 == b as u32) || (97 <= b as u32
        <= 122 && b as u32 - 32 == a as u32)
}

/// Case-insensitive equality of two character sequences.
pub open spec fn seq_eq_ci(a: Seq<char>, b: Seq<char>) -> bool {
    a.len() == b.len() && forall|k: int| 0 <= k < a.len() ==> eq_ci(a[k], b[k])
}

/// The instruction mnemonics the language knows, compared without case.
pub open spec fn spec_is_instruction(s: Seq<char>) -> bool {
    ||| seq_eq_ci(s, "AND"@)
    ||| seq_eq_ci(s, "ADD"@)
    ||| seq_eq_ci(s, "NOT"@)
    ||| seq_eq_ci(s, "BR"@)
    ||| seq_eq_ci(s, "BRZ"@)
    ||| seq_eq_ci(s, "BRP"@)
    ||| seq_eq_ci(s, "BRN"@)
    ||| seq_eq_ci(s, "BRNZ"@)
    ||| seq_eq_ci(s, "BRNZP"@)
    ||| seq_eq_ci(s, "BRNP"@)
    ||| seq_eq_ci(s, "BRZP"@)
    ||| seq_eq_ci(s, "LD"@)
    ||| seq_eq_ci(s, "LDI"@)
    ||| seq_eq_ci(s, "LDR"@)
    ||| seq_eq_ci(s, "ST"@)
    ||| seq_eq_ci(s, "STR"@)
    ||| seq_eq_ci(s, "STI"@)
    ||| seq_eq_ci(s, "TRAP"@)
    ||| seq_eq_ci(s, "JMP"@)
    ||| seq_eq_ci(s, "RET"@)
    ||| seq_eq_ci(s, "JSR"@)
    ||| seq_eq_ci(s, "JSRR"@)
    ||| seq_eq_ci(s, "LEA"@)
    ||| seq_eq_ci(s, "HALT"@)
    ||| seq_eq_ci(s, "GETC"@)
    ||| seq_eq_ci(s, "IN"@)
    ||| seq_eq_ci(s, "OUT"@)
    ||| seq_eq_ci(s, "PUTS"@)
    ||| seq_eq_ci(s, "PUSH!"@)
    ||| seq_eq_ci(s, "POP!"@)
    ||| seq_eq_ci(s, "COPY!"@)
    ||| seq_eq_ci(s, "ZERO!"@)
    ||| seq_eq_ci(s, "SP++"@)
    ||| seq_eq_ci(s, "SP--"@)
    ||| seq_eq_ci(s, "SET_COND!"@)
}

/// Classifies one identifier word: a register name `R0`..`R7` (a digit of 8
/// or 9 after `R` is an error), an instruction mnemonic, or a label.
pub open spec fn classify_ident(name: Seq<char>, e: nat) -> NextTok {
    if name.len() == 2 && name[0] == 'R' && is_dec_digit(name[1]) {
        if name[1] as u32 - 48 <= 7 {
            NextTok::TokAt(TokenModel::Register((name[1] as u32 - 48) as u16), e)
        } else {
            NextTok::TokErr
        }
    } else if spec_is_instruction(name) {
        NextTok::TokAt(TokenModel::Instruction(name), e)
    } else {
        NextTok::TokAt(TokenModel::Label(name), e)
    }
}

/// The scanner's step: skips whitespace, stops at the line end or a comment,
/// and otherwise recognises one token by its leading character.
pub open spec fn next_token(s: Seq<char>, i: nat) -> NextTok
    decreases s.len() - i,
{
    if i >= s.len() {
        NextTok::TokEnd
    } else {
        let c = s[i as int];
        if is_ws(c) {
            next_token(s, i + 1)
        } else if c == ';' {
            NextTok::TokEnd
        } else if c == ',' {
            NextTok::TokAt(TokenModel::Comma, i + 1)
        } else if c == '"' {
            let q = run_end(s, i + 1, |ch: char| ch != '"' && ch != '\n');
            if q < s.len() && s[q as int] == '"' {
                NextTok::TokAt(TokenModel::StringLiteral(s.subrange(i + 1 as int, q as int)), q + 1)
            } else {
                NextTok::TokErr
            }
        } else if c == '#' {
            scan_number(s, i + 1, 10)
        } else if c == 'x' {
            scan_number(s, i + 1, 16)
        } else if c == 'b' {
            scan_number(s, i + 1, 2)
        } else if c == '.' {
            let e = run_end(s, i + 1, |ch: char| is_alpha(ch));
            if !is_term_at(s, e) {
                NextTok::TokErr
            } else if is_directive_name(s.subrange(i + 1 as int, e as int)) {
                NextTok::TokAt(TokenModel::Directive(s.subrange(i + 1 as int, e as int)), e)
            } else {
                NextTok::TokErr
            }
        } else if is_dec_digit(c) {
            scan_number(s, i, 10)
        } else if is_ident_char(c) {
            let e = run_end(s, i, |ch: char| is_ident_char(ch));
            classify_ident(s.subrange(i as int, e as int), e)
        } else {
            NextTok::TokErr
        }
    }
}

/// A recognised token always ends after the position it began at and within
/// the line.
pub proof fn lemma_next_token_advances(s: Seq<char>, i: nat)
    requires
        i <= s.len(),
    ensures
        next_token(s, i) matches NextTok::TokAt(t, j) ==> i < j <= s.len(),
    decreases s.len() - i,
{
    if i < s.len() {
        let c = s[i as int];
        if is_ws(c) {
            lemma_next_token_advances(s, i + 1);
        } else if c == '"' {
            lemma_run_end(s, i + 1, |ch: char| ch != '"' && ch != '\n');
        } else if c == '#' {
            lemma_scan_number_advances(s, i + 1, 10);
        } else if c == 'x' {
            lemma_scan_number_advances(s, i + 1, 16);
        } else if c == 'b' {
            lemma_scan_number_advances(s, i + 1, 2);
        } else if c == '.' {
            lemma_run_end(s, i + 1, |ch: char| is_alpha(ch));
        } else if is_dec_digit(c) {
            lemma_scan_number_advances(s, i, 10);
        } else if is_ident_char(c) {
            lemma_run_end(s, i, |ch: char| is_ident_char(ch));
        }
    }
}

proof fn lemma_scan_number_advances(s: Seq<char>, j: nat, base: u32)
    requires
        j <= s.len(),
    ensures
        scan_number(s, j, base) matches NextTok::TokAt(t, e) ==> j < e <= s.len(),
{
    let neg = j < s.len() && s[j as int] == '-';
    let k: nat = if neg {
        j + 1
    } else {
        j
    };
    lemma_run_end(s, k, |c: char| is_digit_of(c, base));
}

/// The token sequence of a whole line, or `None` on a syntax error.
pub open spec fn lex_from(s: Seq<char>, i: nat) -> Option<Seq<TokenModel>>
    decreases s.len() - i,
{
    match next_token(s, i) {
        NextTok::TokEnd => Some(Seq::empty()),
        NextTok::TokErr => None,
        NextTok::TokAt(t, j) => {
            if i < j <= s.len() {
                match lex_from(s, j) {
                    None => None,
                    Some(rest) => Some(seq![t] + rest),
                }
            } else {
                None
            }
        },
    }
}

/// The tokens of one comment-stripped source line.
pub open spec fn lex_line_spec(s: Seq<char>) -> Option<Seq<TokenModel>> {
    lex_from(s, 0)
}


// ---------------------------------------------------------------------------
// The executable scanner
// ---------------------------------------------------------------------------

/// Exact equality of two string slices.
pub fn str_eq(a: &str, b: &str) -> (r: bool)
    ensures
        r == (a@ == b@),
{
    let na = a.unicode_len();
    let nb = b.unicode_len();
    if na != nb {
        assert(a@ != b@) by {
            assert(a@.len() != b@.len());
        }
        return false;
    }
    let mut i: usize = 0;
    while i < na
        invariant
            i <= na,
            na == a@.len(),
            na == b@.len(),
            forall|k: int| 0 <= k < i ==> a@[k] == b@[k],
        decreases na - i,
    {
        if a.get_char(i) != b.get_char(i) {
            assert(a@ != b@) by {
                assert(a@[i as int] != b@[i as int]);
            }
            return false;
        }
        i += 1;
    }
    proof {
        assert(a@ =~= b@);
    }
    true
}

/// Case-insensitive equality of two string slices.
pub fn str_eq_ci(a: &str, b: &str) -> (r: bool)
    ensures
        r == seq_eq_ci(a@, b@),
{
    let na = a.unicode_len();
    let nb = b.unicode_len();
    if na != nb {
        return false;
    }
    let mut i: usize = 0;
    while i < na
        invariant
            i <= na,
            na == a@.len(),
            na == b@.len(),
            forall|k: int| 0 <= k < i ==> eq_ci(a@[k], b@[k]),
        decreases na - i,
    {
        let ca = a.get_char(i) as u32;
        let cb = b.get_char(i) as u32;
        let same = ca == cb || (97 <= ca && ca <= 122 && ca - 32 == cb) || (97 <= cb && cb <= 122
            && cb - 32 == ca);
        if !same {
            return false;
        }
        i += 1;
    }
    true
}

/// Whether the word is one of the instruction mnemonics, compared without
/// case.
pub fn is_instruction(s: &str) -> (r: bool)
    ensures
        r == spec_is_instruction(s@),
{
    str_eq_ci(s, "AND") || str_eq_ci(s, "ADD") || str_eq_ci(s, "NOT") || str_eq_ci(s, "BR")
        || str_eq_ci(s, "BRZ") || str_eq_ci(s, "BRP") || str_eq_ci(s, "BRN") || str_eq_ci(s, "BRNZ")
        || str_eq_ci(s, "BRNZP") || str_eq_ci(s, "BRNP") || str_eq_ci(s, "BRZP") || str_eq_ci(
        s,
        "LD",
    ) || str_eq_ci(s, "LDI") || str_eq_ci(s, "LDR") || str_eq_ci(s, "ST") || str_eq_ci(s, "STR")
        || str_eq_ci(s, "STI") || str_eq_ci(s, "TRAP") || str_eq_ci(s, "JMP") || str_eq_ci(
        s,
        "RET",
    ) || str_eq_ci(s, "JSR") || str_eq_ci(s, "JSRR") || str_eq_ci(s, "LEA") || str_eq_ci(s, "HALT")
        || str_eq_ci(s, "GETC") || str_eq_ci(s, "IN") || str_eq_ci(s, "OUT") || str_eq_ci(s, "PUTS") || str_eq_ci(
        s,
        "PUSH!",
    ) || str_eq_ci(s, "POP!") || str_eq_ci(s, "COPY!") || str_eq_ci(s, "ZERO!") || str_eq_ci(
        s,
        "SP++",
    ) || str_eq_ci(s, "SP--") || str_eq_ci(s, "SET_COND!")
}

/// A character class the scanner takes runs of.
#[derive(Clone, Copy)]
enum CharClass {
    Digits(u32),
    Alpha,
    Ident,
    StrBody,
    NotSemi,
    Ws,
}

spec fn class_pred(k: CharClass) -> spec_fn(char) -> bool {
    match k {
        CharClass::Digits(b) => |c: char| is_digit_of(c, b),
        CharClass::Alpha => |c: char| is_alpha(c),
        CharClass::Ident => |c: char| is_ident_char(c),
        CharClass::StrBody => |c: char| c != '"' && c != '\n',
        CharClass::NotSemi => |c: char| c != ';',
        CharClass::Ws => |c: char| is_ws(c),
    }
}

fn matches_class(c: char, k: CharClass) -> (r: bool)
    ensures
        r == class_pred(k)(c),
{
    let u = c as u32;
    match k {
        CharClass::Digits(b) => {
            if b == 16 {
                (48 <= u && u <= 57) || (97 <= u && u <= 102) || (65 <= u && u <= 70)
            } else if b == 10 {
                48 <= u && u <= 57
            } else {
                c == '0' || c == '1'
            }
        },
        CharClass::Alpha => (65 <= u && u <= 90) || (97 <= u && u <= 122),
        CharClass::Ident => 33 <= u && u <= 126 && c != ',',
        CharClass::StrBody => c != '"' && c != '\n',
        CharClass::NotSemi => c != ';',
        CharClass::Ws => c == ' ' || c == '\t' || c == '\n',
    }
}

/// Index of the first character at or after `from` that falls outside the
/// class, or the end of the string.
fn run_while(s: &str, from: usize, k: CharClass) -> (e: usize)
    requires
        from <= s@.len(),
    ensures
        e as nat == run_end(s@, from as nat, class_pred(k)),
        from <= e <= s@.len(),
{
    let ghost p = class_pred(k);
    let n = s.unicode_len();
    let mut j = from;
    while j < n && matches_class(s.get_char(j), k)
        invariant
            from <= j <= n,
            n == s@.len(),
            run_end(s@, from as nat, p) == run_end(s@, j as nat, p),
            p == class_pred(k),
        decreases n - j,
    {
        proof {
            assert(run_end(s@, j as nat, p) == run_end(s@, (j + 1) as nat, p));
        }
        j += 1;
    }
    proof {
        assert(run_end(s@, j as nat, p) == j);
        lemma_run_end(s@, from as nat, p);
    }
    j
}

/// The value of a scanned digit run, exact up to `0xFFFF`; any larger
/// magnitude is reported by a value above `0xFFFF`.
fn digits_value_capped(s: &str, from: usize, until: usize, base: u32) -> (v: u32)
    requires
        from <= until <= s@.len(),
        base == 2 || base == 10 || base == 16,
        forall|t: int| from <= t < until ==> is_digit_of(s@[t], base),
    ensures
        ({
            let dv = digits_val(s@.subrange(from as int, until as int), base);
            (v <= 0xFFFF && v == dv) || (v > 0xFFFF && dv > 0xFFFF)
        }),
{
    let mut v: u32 = 0;
    let mut j = from;
    proof {
        assert(s@.subrange(from as int, from as int) =~= Seq::<char>::empty());
    }
    while j < until
        invariant
            from <= j <= until <= s@.len(),
            base == 2 || base == 10 || base == 16,
            forall|t: int| from <= t < until ==> is_digit_of(s@[t], base),
            ({
                let dv = digits_val(s@.subrange(from as int, j as int), base);
                (v <= 0xFFFF && v == dv) || (v > 0xFFFF && dv > 0xFFFF)
            }),
        decreases until - j,
    {
        let c = s.get_char(j);
        let u = c as u32;
        let d: u32 = if 48 <= u && u <= 57 {
            u - 48
        } else if 97 <= u && u <= 102 {
            u - 87
        } else if 65 <= u && u <= 70 {
            u - 55
        } else {
            0
        };
        proof {
            assert(s@.subrange(from as int, (j + 1) as int).drop_last() =~= s@.subrange(
                from as int,
                j as int,
            ));
            assert(s@.subrange(from as int, (j + 1) as int).last() == s@[j as int]);
        }
        let ghost dv = digits_val(s@.subrange(from as int, j as int), base);
        let ghost dv2 = digits_val(s@.subrange(from as int, (j + 1) as int), base);
        proof {
            assert(dv2 == dv * base + digit_val(s@[j as int]));
            if dv > 0xFFFF {
                assert(dv * base >= dv * 2) by (nonlinear_arith)
                    requires
                        base >= 2,
                        dv >= 0,
                ;
            }
        }
        if v <= 0xFFFF {
            v = v * base + d;
        }
        j += 1;
    }
    v
}

/// Whether the character is token-separating whitespace.
fn is_ws_exec(c: char) -> (r: bool)
    ensures
        r == is_ws(c),
{
    c == ' ' || c == '\t' || c == '\n'
}

/// A step of the executable scanner: the end of the line, a syntax error,
/// or one token and the position just after it.
enum NextStep {
    StepEnd,
    StepFail,
    StepTok(Token, usize),
}

/// Reads one token beginning at or after `i`, mirroring `next_token`.
fn next_token_exec(s: &str, i: usize) -> (r: NextStep)
    requires
        i <= s@.len(),
    ensures
        match r {
            NextStep::StepEnd => next_token(s@, i as nat) is TokEnd,
            NextStep::StepFail => next_token(s@, i as nat) is TokErr,
            NextStep::StepTok(t, j) => next_token(s@, i as nat) == NextTok::TokAt(t@, j as nat) && i
                < j <= s@.len(),
        },
{
    let n = s.unicode_len();
    let mut i = i;
    let ghost i0 = i as nat;
    while i < n && is_ws_exec(s.get_char(i))
        invariant
            i0 <= i as nat <= n,
            n == s@.len(),
            next_token(s@, i0) == next_token(s@, i as nat),
        decreases n - i,
    {
        proof {
            assert(next_token(s@, i as nat) == next_token(s@, (i + 1) as nat));
        }
        i += 1;
    }
    if i >= n {
        return NextStep::StepEnd;
    }
    let c = s.get_char(i);
    let u = c as u32;
    if c == ';' {
        NextStep::StepEnd
    } else if c == ',' {
        NextStep::StepTok(Token::Comma, i + 1)
    } else if c == '"' {
        let q = run_while(s, i + 1, CharClass::StrBody);
        if q < n && s.get_char(q) == '"' {
            let text = s.substring_char(i + 1, q);
            NextStep::StepTok(Token::StringLiteral(text.to_owned()), q + 1)
        } else {
            NextStep::StepFail
        }
    } else if c == '#' {
        scan_number_exec(s, i + 1, 10)
    } else if c == 'x' {
        scan_number_exec(s, i + 1, 16)
    } else if c == 'b' {
        scan_number_exec(s, i + 1, 2)
    } else if c == '.' {
        let e = run_while(s, i + 1, CharClass::Alpha);
        let terminated = e >= n || {
            let t = s.get_char(e);
            t == ' ' || t == '\t' || t == '\n' || t == ','
        };
        if !terminated {
            NextStep::StepFail
        } else {
            let name = s.substring_char(i + 1, e);
            if Token::is_directive(name) {
                NextStep::StepTok(Token::Directive(name.to_owned()), e)
            } else {
                NextStep::StepFail
            }
        }
    } else if 48 <= u && u <= 57 {
        scan_number_exec(s, i, 10)
    } else if 33 <= u && u <= 126 && c != ',' {
        let e = run_while(s, i, CharClass::Ident);
        let name = s.substring_char(i, e);
        proof {
            lemma_run_end(s@, i as nat, class_pred(CharClass::Ident));
        }
        if e - i == 2 && s.get_char(i) == 'R' && {
            let d = s.get_char(i + 1) as u32;
            48 <= d && d <= 57
        } {
            let d = s.get_char(i + 1) as u32 - 48;
            if d <= 7 {
                NextStep::StepTok(Token::Register(d as u16), e)
            } else {
                NextStep::StepFail
            }
        } else if is_instruction(name) {
            NextStep::StepTok(Token::Instruction(name.to_owned()), e)
        } else {
            NextStep::StepTok(Token::Label(name.to_owned()), e)
        }
    } else {
        NextStep::StepFail
    }
}

/// Reads one number literal, mirroring `scan_number`.
fn scan_number_exec(s: &str, j: usize, base: u32) -> (r: NextStep)
    requires
        j <= s@.len(),
        base == 2 || base == 10 || base == 16,
    ensures
        match r {
            NextStep::StepEnd => false,
            NextStep::StepFail => scan_number(s@, j as nat, base) is TokErr,
            NextStep::StepTok(t, e) => scan_number(s@, j as nat, base) == NextTok::TokAt(
                t@,
                e as nat,
            ) && j < e <= s@.len(),
        },
{
    let n = s.unicode_len();
    let neg = j < n && s.get_char(j) == '-';
    let k = if neg {
        j + 1
    } else {
        j
    };
    let e = run_while(s, k, CharClass::Digits(base));
    proof {
        lemma_run_end(s@, k as nat, class_pred(CharClass::Digits(base)));
    }
    if e == k {
        return NextStep::StepFail;
    }
    let terminated = e >= n || {
        let t = s.get_char(e);
        t == ' ' || t == '\t' || t == '\n' || t == ','
    };
    if !terminated {
        return NextStep::StepFail;
    }
    let v = digits_value_capped(s, k, e, base);
    if v > 0xFFFF {
        return NextStep::StepFail;
    }
    let value = v as u16;
    let lit = NumberLiteral {
        sign: if neg {
            Sign::MINUS
        } else {
            Sign::PLUS
        },
        value,
        bits: crate::binary_utils::bits_required_for_number(value),
    };
    if base == 10 {
        NextStep::StepTok(Token::DecimalLiteral(lit), e)
    } else if base == 2 {
        NextStep::StepTok(Token::BinLiteral(lit), e)
    } else {
        NextStep::StepTok(Token::HexLiteral(lit), e)
    }
}


// ---------------------------------------------------------------------------
// Token operations and line tokenizing
// ---------------------------------------------------------------------------

/// Two token models have the same variant.
pub open spec fn same_shape(a: TokenModel, b: TokenModel) -> bool {
    match (a, b) {
        (TokenModel::DecimalLiteral(_), TokenModel::DecimalLiteral(_)) => true,
        (TokenModel::HexLiteral(_), TokenModel::HexLiteral(_)) => true,
        (TokenModel::BinLiteral(_), TokenModel::BinLiteral(_)) => true,
        (TokenModel::Register(_), TokenModel::Register(_)) => true,
        (TokenModel::Label(_), TokenModel::Label(_)) => true,
        (TokenModel::Comma, TokenModel::Comma) => true,
        (TokenModel::Instruction(_), TokenModel::Instruction(_)) => true,
        (TokenModel::Directive(_), TokenModel::Directive(_)) => true,
        (TokenModel::StringLiteral(_), TokenModel::StringLiteral(_)) => true,
        _ => false,
    }
}

/// Two token models are equal in every observable part: variant, texts,
/// register numbers, and the sign and magnitude of number literals.  The
/// width hint of a number literal is derived data and is not compared.
pub open spec fn exact_eq(a: TokenModel, b: TokenModel) -> bool {
    match (a, b) {
        (TokenModel::DecimalLiteral(x), TokenModel::DecimalLiteral(y)) => x.sign == y.sign
            && x.value == y.value,
        (TokenModel::HexLiteral(x), TokenModel::HexLiteral(y)) => x.sign == y.sign && x.value
            == y.value,
        (TokenModel::BinLiteral(x), TokenModel::BinLiteral(y)) => x.sign == y.sign && x.value
            == y.value,
        (TokenModel::Register(x), TokenModel::Register(y)) => x == y,
        (TokenModel::Label(x), TokenModel::Label(y)) => x == y,
        (TokenModel::Comma, TokenModel::Comma) => true,
        (TokenModel::Instruction(x), TokenModel::Instruction(y)) => x == y,
        (TokenModel::Directive(x), TokenModel::Directive(y)) => x == y,
        (TokenModel::StringLiteral(x), TokenModel::StringLiteral(y)) => x == y,
        _ => false,
    }
}

/// The number literal carried by a token, if it carries one.
pub open spec fn num_lit_of(t: TokenModel) -> Option<NumberLiteral> {
    match t {
        TokenModel::DecimalLiteral(n) => Some(n),
        TokenModel::HexLiteral(n) => Some(n),
        TokenModel::BinLiteral(n) => Some(n),
        _ => None,
    }
}

/// Equality of two signs.
pub fn sign_eq(a: Sign, b: Sign) -> (r: bool)
    ensures
        r == (a == b),
{
    match (a, b) {
        (Sign::PLUS, Sign::PLUS) => true,
        (Sign::MINUS, Sign::MINUS) => true,
        _ => false,
    }
}

impl Token {
    /// Whether the word names one of the assembler directives.
    pub fn is_directive(name: &str) -> (r: bool)
        ensures
            r == is_directive_name(name@),
    {
        str_eq(name, "BLKW") || str_eq(name, "FILL") || str_eq(name, "ORIG") || str_eq(name, "END")
            || str_eq(name, "STRINGZ") || str_eq(name, "IMPORT") || str_eq(name, "EXPORT")
    }

    /// Shape equality: the two tokens have the same variant, whatever their
    /// payloads.
    pub fn is(&self, other: &Self) -> (r: bool)
        ensures
            r == same_shape(self@, other@),
    {
        match (self, other) {
            (Token::DecimalLiteral(_), Token::DecimalLiteral(_)) => true,
            (Token::HexLiteral(_), Token::HexLiteral(_)) => true,
            (Token::BinLiteral(_), Token::BinLiteral(_)) => true,
            (Token::Register(_), Token::Register(_)) => true,
            (Token::Label(_), Token::Label(_)) => true,
            (Token::Comma, Token::Comma) => true,
            (Token::Instruction(_), Token::Instruction(_)) => true,
            (Token::Directive(_), Token::Directive(_)) => true,
            (Token::StringLiteral(_), Token::StringLiteral(_)) => true,
            _ => false,
        }
    }

    /// Deep equality: variant and payloads agree.  The width hint of a
    /// number literal is derived from its magnitude and is not compared.
    pub fn is_exact(&self, other: &Self) -> (r: bool)
        ensures
            r == exact_eq(self@, other@),
    {
        match self {
            Token::DecimalLiteral(x) => match other {
                Token::DecimalLiteral(y) => sign_eq(x.sign, y.sign) && x.value == y.value,
                _ => false,
            },
            Token::HexLiteral(x) => match other {
                Token::HexLiteral(y) => sign_eq(x.sign, y.sign) && x.value == y.value,
                _ => false,
            },
            Token::BinLiteral(x) => match other {
                Token::BinLiteral(y) => sign_eq(x.sign, y.sign) && x.value == y.value,
                _ => false,
            },
            Token::Register(x) => match other {
                Token::Register(y) => x == y,
                _ => false,
            },
            Token::Label(x) => match other {
                Token::Label(y) => str_eq(x.as_str(), y.as_str()),
                _ => false,
            },
            Token::Comma => match other {
                Token::Comma => true,
                _ => false,
            },
            Token::Instruction(x) => match other {
                Token::Instruction(y) => str_eq(x.as_str(), y.as_str()),
                _ => false,
            },
            Token::Directive(x) => match other {
                Token::Directive(y) => str_eq(x.as_str(), y.as_str()),
                _ => false,
            },
            Token::StringLiteral(x) => match other {
                Token::StringLiteral(y) => str_eq(x.as_str(), y.as_str()),
                _ => false,
            },
        }
    }

    /// The machine word a number literal denotes: its magnitude, negated
    /// modulo 2^16 when the sign is minus.
    pub fn as_u16(&self, truncate_limit: Option<u16>) -> (r: u16)
        requires
            num_lit_of(self@) is Some,
            truncate_limit matches Some(l) ==> num_lit_of(self@).unwrap().bits <= l,
        ensures
            ({
                let n = num_lit_of(self@).unwrap();
                r == if n.sign == Sign::MINUS {
                    crate::binary_utils::neg16(n.value)
                } else {
                    n.value
                }
            }),
    {
        match self {
            Token::DecimalLiteral(n) | Token::HexLiteral(n) | Token::BinLiteral(n) => {
                if matches!(n.sign, Sign::MINUS) {
                    crate::binary_utils::invert_sign(n.value)
                } else {
                    n.value
                }
            },
            _ => {
                proof {
                    assert(false);
                }
                0
            },
        }
    }

    /// Tokenizes one source line: its token sequence in source order, or a
    /// syntax error message.
    pub fn tokenize_line(line: &SourceLine) -> (r: Result<Vec<Token>, String>)
        ensures
            match r {
                Ok(ts) => lex_line_spec(line.text@) == Some(tokens_model(ts@)),
                Err(_) => lex_line_spec(line.text@) is None,
            },
    {
        Self::tokenize_chars(line.text.as_str())
    }

    /// Tokenizes one line of text, reporting a syntax error as `Err`.
    pub fn tokenize_str_w_err(line: &str) -> (r: Result<Vec<Token>, String>)
        ensures
            match r {
                Ok(ts) => lex_line_spec(line@) == Some(tokens_model(ts@)),
                Err(_) => lex_line_spec(line@) is None,
            },
    {
        Self::tokenize_chars(line)
    }

    /// Tokenizes a line known to be well formed.
    pub fn tokenize_str(line: &str) -> (r: Vec<Token>)
        requires
            lex_line_spec(line@) is Some,
        ensures
            lex_line_spec(line@) == Some(tokens_model(r@)),
    {
        match Self::tokenize_chars(line) {
            Ok(ts) => ts,
            Err(_) => {
                proof {
                    assert(false);
                }
                Vec::new()
            },
        }
    }

    fn tokenize_chars(s: &str) -> (r: Result<Vec<Token>, String>)
        ensures
            match r {
                Ok(ts) => lex_from(s@, 0) == Some(tokens_model(ts@)),
                Err(_) => lex_from(s@, 0) is None,
            },
    {
        let n = s.unicode_len();
        let mut tokens: Vec<Token> = Vec::new();
        let mut i: usize = 0;
        loop
            invariant
                i <= n,
                n == s@.len(),
                lex_from(s@, 0) == (match lex_from(s@, i as nat) {
                    Option::<Seq<TokenModel>>::None => None,
                    Some(rest) => Some(tokens_model(tokens@) + rest),
                }),
            decreases n - i,
        {
            match next_token_exec(s, i) {
                NextStep::StepEnd => {
                    proof {
                        assert(lex_from(s@, i as nat) == Some(Seq::<TokenModel>::empty()));
                        assert(tokens_model(tokens@) + Seq::<TokenModel>::empty() =~= tokens_model(
                            tokens@,
                        ));
                    }
                    return Ok(tokens);
                },
                NextStep::StepFail => {
                    proof {
                        assert(lex_from(s@, i as nat) is None);
                    }
                    return Err("syntax error in source line".to_owned());
                },
                NextStep::StepTok(t, j) => {
                    proof {
                        let ghost tm = t@;
                        assert(lex_from(s@, i as nat) == (match lex_from(s@, j as nat) {
                            Option::<Seq<TokenModel>>::None => None,
                            Some(rest) => Some(seq![tm] + rest),
                        }));
                        assert(tokens_model(tokens@.push(t)) =~= tokens_model(tokens@) + seq![tm]);
                        assert forall|rest: Seq<TokenModel>|
                            (tokens_model(tokens@) + (seq![tm] + rest)) =~= (tokens_model(
                            tokens@.push(t),
                        ) + rest) by {}
                    }
                    tokens.push(t);
                    i = j;
                },
            }
        }
    }
}



// ---------------------------------------------------------------------------
// Comment stripping
// ---------------------------------------------------------------------------

/// The line's text up to its comment: everything before the first
/// semicolon.
pub open spec fn spec_strip_comment(s: Seq<char>) -> Seq<char> {
    s.take(run_end(s, 0, |c: char| c != ';') as int)
}

/// A line whose first non-whitespace character begins a comment.
pub open spec fn spec_is_comment_line(s: Seq<char>) -> bool {
    let j = run_end(s, 0, |c: char| is_ws(c));
    j < s.len() && s[j as int] == ';'
}

/// Strips the comment from one line.
pub fn strip_comment_exec(s: &str) -> (r: String)
    ensures
        r@ == spec_strip_comment(s@),
{
    let e = run_while(s, 0, CharClass::NotSemi);
    proof {
        lemma_run_end(s@, 0, |c: char| c != ';');
    }
    s.substring_char(0, e).to_owned()
}

/// Whether the line holds only a comment, at most after whitespace.
pub fn is_comment_line_exec(s: &str) -> (r: bool)
    ensures
        r == spec_is_comment_line(s@),
{
    let j = run_while(s, 0, CharClass::Ws);
    proof {
        lemma_run_end(s@, 0, |c: char| is_ws(c));
    }
    j < s.unicode_len() && s.get_char(j) == ';'
}


// ---------------------------------------------------------------------------
// Canonical printing
// ---------------------------------------------------------------------------

/// The character of one digit value, decimal or hexadecimal uppercase.
pub open spec fn digit_char(d: nat) -> char {
    if d < 10 {
        ((48 + d) as u8) as char
    } else {
        ((55 + d) as u8) as char
    }
}

/// The digits of `n` under radix `base`, most significant first.
pub open spec fn digits_of(n: nat, base: nat) -> Seq<char>
    decreases n,
    when base >= 2
    via digits_of_decreases
{
    if base < 2 || n < base {
        seq![digit_char(n % base)]
    } else {
        digits_of((n / base) as nat, base).push(digit_char(n % base))
    }
}

#[via_fn]
proof fn digits_of_decreases(n: nat, base: nat) {
    if !(base < 2 || n < base) {
        vstd::arithmetic::div_mod::lemma_div_decreases(n as int, base as int);
    }
}

/// Builds the string of a character sequence.
///
/// Relies on `core::iter::Iterator::collect` building a `String` from a
/// character iterator: the result holds exactly the iterated characters in
/// order.
#[verifier::external_body]
pub fn chars_to_string(v: &Vec<char>) -> (s: String)
    ensures
        s@ == v@,
{
    v.iter().collect()
}

/// The digits of `n` under radix `base`, as characters.
pub fn digits_string(n: u16, base: u16) -> (r: Vec<char>)
    requires
        2 <= base <= 16,
    ensures
        r@ == digits_of(n as nat, base as nat),
    decreases n,
{
    proof {
        if n >= base {
            vstd::arithmetic::div_mod::lemma_div_decreases(n as int, base as int);
        }
    }
    let d = n % base;
    let c: u8 = if d < 10 {
        48 + (d as u8)
    } else {
        55 + (d as u8)
    };
    if n < base {
        let mut v: Vec<char> = Vec::new();
        v.push(c as char);
        proof {
            assert(v@ =~= seq![digit_char((n % base) as nat)]);
        }
        v
    } else {
        let mut v = digits_string(n / base, base);
        v.push(c as char);
        proof {
            assert(v@ =~= digits_of((n / base) as nat, base as nat).push(
                digit_char((n % base) as nat),
            ));
        }
        v
    }
}

/// The canonical text of one token.
pub open spec fn spec_print_token(t: TokenModel) -> Seq<char> {
    match t {
        TokenModel::DecimalLiteral(l) => seq!['#'] + (if l.sign == Sign::MINUS {
            seq!['-']
        } else {
            Seq::empty()
        }) + digits_of(l.value as nat, 10),
        TokenModel::HexLiteral(l) => seq!['x'] + (if l.sign == Sign::MINUS {
            seq!['-']
        } else {
            Seq::empty()
        }) + digits_of(l.value as nat, 16),
        TokenModel::BinLiteral(l) => seq!['b'] + (if l.sign == Sign::MINUS {
            seq!['-']
        } else {
            Seq::empty()
        }) + digits_of(l.value as nat, 2),
        TokenModel::Register(r) => seq!['R'] + digits_of(r as nat, 10),
        TokenModel::Label(s) => s,
        TokenModel::Comma => seq![','],
        TokenModel::Instruction(s) => s,
        TokenModel::Directive(s) => seq!['.'] + s,
        TokenModel::StringLiteral(s) => seq!['"'] + s + seq!['"'],
    }
}

/// The canonical printing of a token sequence: the tokens' texts separated
/// by single spaces.
pub open spec fn spec_print_tokens(ts: Seq<TokenModel>) -> Seq<char>
    decreases ts.len(),
{
    if ts.len() == 0 {
        Seq::empty()
    } else if ts.len() == 1 {
        spec_print_token(ts[0])
    } else {
        spec_print_token(ts[0]) + seq![' '] + spec_print_tokens(ts.skip(1))
    }
}

/// Appends one token's canonical text.
fn push_token_text(out: &mut Vec<char>, t: &Token)
    ensures
        final(out)@ == old(out)@ + spec_print_token(t@),
{
    match t {
        Token::DecimalLiteral(l) => {
            out.push('#');
            if matches!(l.sign, Sign::MINUS) {
                out.push('-');
            }
            let mut ds = digits_string(l.value, 10);
            out.append(&mut ds);
        },
        Token::HexLiteral(l) => {
            out.push('x');
            if matches!(l.sign, Sign::MINUS) {
                out.push('-');
            }
            let mut ds = digits_string(l.value, 16);
            out.append(&mut ds);
        },
        Token::BinLiteral(l) => {
            out.push('b');
            if matches!(l.sign, Sign::MINUS) {
                out.push('-');
            }
            let mut ds = digits_string(l.value, 2);
            out.append(&mut ds);
        },
        Token::Register(r) => {
            out.push('R');
            let mut ds = digits_string(*r, 10);
            out.append(&mut ds);
        },
        Token::Label(sv) => {
            push_str_chars(out, sv.as_str());
        },
        Token::Comma => {
            out.push(',');
        },
        Token::Instruction(sv) => {
            push_str_chars(out, sv.as_str());
        },
        Token::Directive(sv) => {
            out.push('.');
            push_str_chars(out, sv.as_str());
        },
        Token::StringLiteral(sv) => {
            out.push('"');
            push_str_chars(out, sv.as_str());
            out.push('"');
        },
    }
    proof {
        assert(final(out)@ =~= old(out)@ + spec_print_token(t@));
    }
}

/// Appends a string's characters.
pub fn push_str_chars(out: &mut Vec<char>, s: &str)
    ensures
        final(out)@ == old(out)@ + s@,
{
    let n = s.unicode_len();
    let mut i: usize = 0;
    while i < n
        invariant
            i <= n,
            n == s@.len(),
            out@ == old(out)@ + s@.take(i as int),
        decreases n - i,
    {
        out.push(s.get_char(i));
        proof {
            assert(old(out)@ + s@.take(i as int + 1) =~= (old(out)@ + s@.take(i as int)).push(
                s@[i as int],
            ));
        }
        i += 1;
    }
    proof {
        assert(old(out)@ + s@.take(n as int) =~= old(out)@ + s@);
    }
}

impl Token {
    /// The canonical printing of a token sequence: the tokens' texts
    /// separated by single spaces.
    pub fn print_tokens(ts: &Vec<Token>) -> (r: String)
        ensures
            r@ == spec_print_tokens(tokens_model(ts@)),
    {
        let ghost model = tokens_model(ts@);
        let mut out: Vec<char> = Vec::new();
        let n = ts.len();
        let mut i: usize = 0;
        while i < n
            invariant
                i <= n,
                n == ts@.len(),
                model == tokens_model(ts@),
                i == 0 ==> out@ =~= Seq::<char>::empty(),
                0 < i ==> out@ == spec_print_tokens(model.take(i as int)),
            decreases n - i,
        {
            if i > 0 {
                out.push(' ');
            }
            proof {
                assert(model[i as int] == ts@[i as int]@);
            }
            push_token_text(&mut out, &ts[i]);
            proof {
                lemma_print_tokens_take(model, i as int);
            }
            i += 1;
        }
        proof {
            if n > 0 {
                assert(model.take(n as int) =~= model);
            }
        }
        chars_to_string(&out)
    }
}

/// Printing one more token appends one space and its text.
proof fn lemma_print_tokens_take(ts: Seq<TokenModel>, i: int)
    requires
        0 <= i < ts.len(),
    ensures
        i == 0 ==> spec_print_tokens(ts.take(1)) == spec_print_token(ts[0]),
        i > 0 ==> spec_print_tokens(ts.take(i + 1)) == spec_print_tokens(ts.take(i)) + seq![' ']
            + spec_print_token(ts[i]),
    decreases i,
{
    if i == 0 {
        assert(ts.take(1)[0] == ts[0]);
        assert(spec_print_tokens(ts.take(1)) == spec_print_token(ts.take(1)[0]));
    } else {
        assert(ts.take(i + 1) =~= ts.take(i).push(ts[i]));
        lemma_print_tokens_head(ts.take(i + 1), ts.take(i), ts[i]);
    }
}

/// Printing distributes over appending one token at the end.
proof fn lemma_print_tokens_head(full: Seq<TokenModel>, pre: Seq<TokenModel>, last: TokenModel)
    requires
        full == pre.push(last),
        pre.len() >= 1,
    ensures
        spec_print_tokens(full) == spec_print_tokens(pre) + seq![' '] + spec_print_token(last),
    decreases pre.len(),
{
    assert(full[0] == pre[0]);
    if pre.len() == 1 {
        assert(full.skip(1) =~= seq![last]);
        assert(spec_print_tokens(full.skip(1)) == spec_print_token(last));
        assert(spec_print_tokens(pre) == spec_print_token(pre[0]));
        assert(spec_print_tokens(full) == spec_print_token(full[0]) + seq![' ']
            + spec_print_tokens(full.skip(1)));
        assert(spec_print_token(full[0]) + seq![' '] + spec_print_token(last) =~= spec_print_tokens(
            pre,
        ) + seq![' '] + spec_print_token(last));
    } else {
        assert(full.skip(1) =~= pre.skip(1).push(last));
        lemma_print_tokens_head(full.skip(1), pre.skip(1), last);
        assert(spec_print_tokens(full) == spec_print_token(full[0]) + seq![' ']
            + spec_print_tokens(full.skip(1)));
        assert(spec_print_tokens(pre) == spec_print_token(pre[0]) + seq![' ']
            + spec_print_tokens(pre.skip(1)));
        assert((spec_print_token(pre[0]) + seq![' '] + (spec_print_tokens(pre.skip(1)) + seq![' ']
            + spec_print_token(last))) =~= ((spec_print_token(pre[0]) + seq![' ']
            + spec_print_tokens(pre.skip(1))) + seq![' '] + spec_print_token(last)));
    }
}


// ---------------------------------------------------------------------------
// Printing then tokenizing
// ---------------------------------------------------------------------------

/// The scanner's run ends exactly where the matching characters end.
proof fn lemma_run_end_is(s: Seq<char>, i: nat, e: nat, p: spec_fn(char) -> bool)
    requires
        i <= e <= s.len(),
        forall|j: int| i <= j < e ==> p(#[trigger] s[j]),
        e < s.len() ==> !p(s[e as int]),
    ensures
        run_end(s, i, p) == e,
    decreases e - i,
{
    if i < e {
        assert(p(s[i as int]));
        lemma_run_end_is(s, i + 1, e, p);
    }
}

/// A token whose canonical text carries its own boundary: a comma, a
/// number literal of any radix carrying the width hint the scanner
/// derives, a string literal without quotes or line breaks inside, or an
/// identifier-shaped token — a register, a mnemonic, or a label — whose
/// text is made of printable characters and starts with none of the
/// characters that open another token kind.
pub open spec fn self_delimiting(t: TokenModel) -> bool {
    match t {
        TokenModel::Comma => true,
        TokenModel::DecimalLiteral(l) => l.bits == bits_for(l.value),
        TokenModel::HexLiteral(l) => l.bits == bits_for(l.value),
        TokenModel::BinLiteral(l) => l.bits == bits_for(l.value),
        TokenModel::StringLiteral(txt) => forall|j: int|
            0 <= j < txt.len() ==> #[trigger] txt[j] != '"' && txt[j] != '\n',
        TokenModel::Register(r) => r <= 7,
        TokenModel::Instruction(name) => ident_shaped(name) && spec_is_instruction(name) && !(
        name.len() == 2 && name[0] == 'R' && is_dec_digit(name[1])),
        TokenModel::Label(name) => ident_shaped(name) && !spec_is_instruction(name) && !(name.len()
            == 2 && name[0] == 'R' && is_dec_digit(name[1])),
        _ => false,
    }
}

/// A nonempty word of printable identifier characters that does not open
/// as a comment, a string, a number of any radix, or a directive.
pub open spec fn ident_shaped(name: Seq<char>) -> bool {
    &&& name.len() > 0
    &&& forall|j: int| 0 <= j < name.len() ==> is_ident_char(#[trigger] name[j])
    &&& name[0] != ';'
    &&& name[0] != '"'
    &&& name[0] != '#'
    &&& name[0] != 'x'
    &&& name[0] != 'b'
    &&& name[0] != '.'
    &&& !is_dec_digit(name[0])
}


/// Every printed digit belongs to its radix.
proof fn lemma_digits_are_digits(n: nat, base: nat)
    requires
        base == 2 || base == 10 || base == 16,
    ensures
        forall|j: int|
            0 <= j < digits_of(n, base).len() ==> is_digit_of(#[trigger] digits_of(n, base)[j], base as u32),
    decreases n,
{
    if base < 2 || n < base {
        assert(n % base < base);
        assert(is_digit_of(digit_char(n % base), base as u32));
    } else {
        lemma_digits_are_digits((n / base) as nat, base);
        assert(n % base < base);
        assert(is_digit_of(digit_char(n % base), base as u32));
        assert(forall|j: int|
            0 <= j < digits_of((n / base) as nat, base).len() ==> digits_of(n, base)[j]
                == #[trigger] digits_of((n / base) as nat, base)[j]);
    }
}

/// A printed digit is never a terminator, a quote, or a sign.
proof fn lemma_digit_not_special(c: char, base: u32)
    requires
        base == 2 || base == 10 || base == 16,
        is_digit_of(c, base),
    ensures
        !is_ws(c) && c != ',' && c != '-' && c != '"',
{
}

/// Reading back the printed digits of a value gives the value.
proof fn lemma_digits_val_roundtrip(n: nat, base: nat)
    requires
        base == 2 || base == 10 || base == 16,
    ensures
        digits_val(digits_of(n, base), base as u32) == n,
    decreases n,
{
    if base < 2 || n < base {
        assert(digits_of(n, base) == seq![digit_char(n % base)]);
        assert(seq![digit_char(n % base)].drop_last() =~= Seq::<char>::empty());
        assert(digits_val(Seq::<char>::empty(), base as u32) == 0);
        assert(seq![digit_char(n % base)].last() == digit_char(n % base));
        assert(digits_val(seq![digit_char(n % base)], base as u32) == digit_val(
            digit_char(n % base),
        ));
        assert(n % base < base);
        assert(digit_val(digit_char(n % base)) == n % base);
        assert(n % base == n);
    } else {
        lemma_digits_val_roundtrip((n / base) as nat, base);
        let pre = digits_of((n / base) as nat, base);
        assert(digits_of(n, base) == pre.push(digit_char(n % base)));
        assert(digits_of(n, base).drop_last() =~= pre);
        assert(digits_of(n, base).last() == digit_char(n % base));
        assert(n % base < base);
        assert(digit_val(digit_char(n % base)) == n % base);
        assert(digits_val(digits_of(n, base), base as u32) == (n / base) * base + n % base);
        vstd::arithmetic::div_mod::lemma_fundamental_div_mod(n as int, base as int);
    }
}

/// The printed form of a number literal of any radix, followed by nothing
/// or a space, scans back to the literal.
proof fn lemma_number_step(l: NumberLiteral, base: u32, v: Seq<char>)
    requires
        base == 2 || base == 10 || base == 16,
        l.bits == bits_for(l.value),
        v.len() == 0 || v[0] == ' ',
    ensures
        ({
            let t = num_token(base, l.sign == Sign::MINUS, l.value);
            let u = spec_print_token(t);
            u.len() > 0 && next_token(u + v, 0) == NextTok::TokAt(t, u.len())
        }),
{
    let t = num_token(base, l.sign == Sign::MINUS, l.value);
    let u = spec_print_token(t);
    let s = u + v;
    let neg = l.sign == Sign::MINUS;
    let k: nat = if neg {
        2
    } else {
        1
    };
    let prefix: char = if base == 10 {
        '#'
    } else if base == 16 {
        'x'
    } else {
        'b'
    };
    let ds = digits_of(l.value as nat, base as nat);
    assert(u =~= (if neg {
        seq![prefix, '-'] + ds
    } else {
        seq![prefix] + ds
    }));
    assert(u.len() == k + ds.len());
    assert(forall|j: int| 0 <= j < u.len() ==> s[j] == #[trigger] u[j]);
    lemma_digits_are_digits(l.value as nat, base as nat);
    let p = |c: char| is_digit_of(c, base);
    assert forall|j: int| k <= j < k + ds.len() implies p(#[trigger] s[j]) by {
        assert(s[j] == ds[j - k]);
    }
    let e = (k + ds.len()) as nat;
    assert(ds.len() > 0);
    if e < s.len() {
        assert(s[e as int] == v[0]);
        assert(!p(s[e as int]));
    }
    lemma_run_end_is(s, k, e, p);
    assert(s[0] == prefix);
    if neg {
        assert(s[1] == '-');
    } else {
        assert(s[1] == ds[0]);
        lemma_digit_not_special(ds[0], base);
    }
    assert(s.subrange(k as int, e as int) =~= ds);
    lemma_digits_val_roundtrip(l.value as nat, base as nat);
    assert(is_term_at(s, e));
    assert(scan_number(s, 1, base) == NextTok::TokAt(num_token(base, neg, l.value), e));
    assert(num_token(base, neg, l.value) == t);
    assert(!is_ws(s[0]) && s[0] != ';' && s[0] != ',' && s[0] != '"');
    if base == 10 {
        assert(!is_dec_digit('#') && '#' != 'x' && '#' != 'b' && '#' != '.');
    } else if base == 16 {
        assert(!is_dec_digit('x') && 'x' != '#' && 'x' != 'b' && 'x' != '.');
    } else {
        assert(!is_dec_digit('b') && 'b' != 'x' && 'b' != '#' && 'b' != '.');
    }
}

/// The canonical text of a self-delimiting token, followed by nothing or
/// by a space, scans as exactly that token, ending at the text's end.
proof fn lemma_token_step(t: TokenModel, v: Seq<char>)
    requires
        self_delimiting(t),
        v.len() == 0 || v[0] == ' ',
    ensures
        ({
            let u = spec_print_token(t);
            u.len() > 0 && next_token(u + v, 0) == NextTok::TokAt(t, u.len())
        }),
{
    let u = spec_print_token(t);
    let s = u + v;
    assert(forall|k: int| 0 <= k < u.len() ==> s[k] == #[trigger] u[k]);
    match t {
        TokenModel::Comma => {
            assert(u =~= seq![',']);
            assert(s[0] == ',');
        },
        TokenModel::DecimalLiteral(l) => {
            lemma_number_step(l, 10, v);
        },
        TokenModel::HexLiteral(l) => {
            lemma_number_step(l, 16, v);
        },
        TokenModel::BinLiteral(l) => {
            lemma_number_step(l, 2, v);
        },
        TokenModel::StringLiteral(txt) => {
            assert(u =~= seq!['"'] + txt + seq!['"']);
            let p = |c: char| c != '"' && c != '\n';
            assert(forall|j: int| 1 <= j < 1 + txt.len() ==> p(#[trigger] s[j]) && s[j] == txt[j
                - 1]);
            assert(s[txt.len() as int + 1] == '"');
            lemma_run_end_is(s, 1, (txt.len() + 1) as nat, p);
            let q = (txt.len() + 1) as nat;
            assert(s.subrange(1, q as int) =~= txt);
            assert(next_token(s, 0) == NextTok::TokAt(TokenModel::StringLiteral(txt), q + 1));
        },
        TokenModel::Register(r) => {
            assert(digits_of(r as nat, 10) == seq![digit_char((r % 10) as nat)]);
            assert(r % 10 == r);
            assert(u =~= seq!['R', digit_char(r as nat)]);
            let c = digit_char(r as nat);
            assert(c as u32 == 48 + r);
            lemma_ident_run(s, u, 2);
            assert(s.subrange(0, 2) =~= u);
            assert(u[0] == 'R' && is_dec_digit(u[1]) && u[1] as u32 - 48 == r);
            assert(classify_ident(u, 2) == NextTok::TokAt(TokenModel::Register(r), 2nat));
        },
        TokenModel::Instruction(name) => {
            assert(u == name);
            lemma_ident_run(s, u, u.len());
            assert(s.subrange(0, u.len() as int) =~= u);
            assert(classify_ident(u, u.len()) == NextTok::TokAt(
                TokenModel::Instruction(name),
                u.len(),
            ));
        },
        TokenModel::Label(name) => {
            assert(u == name);
            lemma_ident_run(s, u, u.len());
            assert(s.subrange(0, u.len() as int) =~= u);
            assert(classify_ident(u, u.len()) == NextTok::TokAt(TokenModel::Label(name), u.len()));
        },
        _ => {},
    }
}

/// An identifier run over the token's own characters stops exactly at its
/// end: the next character, when there is one, is a space.
proof fn lemma_ident_run(s: Seq<char>, u: Seq<char>, e: nat)
    requires
        e == u.len(),
        s.len() == e || (s.len() > e && s[e as int] == ' '),
        forall|j: int| 0 <= j < e ==> s[j] == #[trigger] u[j],
        forall|j: int| 0 <= j < u.len() ==> is_ident_char(#[trigger] u[j]),
    ensures
        run_end(s, 0, |c: char| is_ident_char(c)) == e,
{
    let p = |c: char| is_ident_char(c);
    assert forall|j: int| 0 <= j < e implies p(#[trigger] s[j]) by {
        assert(s[j] == u[j]);
        assert(is_ident_char(u[j]));
    }
    if e < s.len() {
        assert(!p(s[e as int]));
    }
    lemma_run_end_is(s, 0, e, p);
}

/// Tokenizing the canonical printing of a self-delimiting token yields
/// exactly that token again.
pub proof fn lemma_print_then_lex_single(t: TokenModel)
    requires
        self_delimiting(t),
    ensures
        lex_line_spec(spec_print_token(t)) == Some(seq![t]),
{
    lemma_print_then_lex(seq![t]);
    assert(spec_print_tokens(seq![t]) == spec_print_token(t));
}

/// Tokenizing the canonical printing of any sequence of self-delimiting
/// tokens yields an equal sequence.  This is the print-and-scan round
/// trip for every token kind: commas, string literals, registers,
/// mnemonics, labels, and number literals of every radix whose width hint
/// is the one the scanner derives.
pub proof fn lemma_print_then_lex(ts: Seq<TokenModel>)
    requires
        forall|k: int| 0 <= k < ts.len() ==> self_delimiting(#[trigger] ts[k]),
    ensures
        lex_line_spec(spec_print_tokens(ts)) == Some(ts),
    decreases ts.len(),
{
    let s = spec_print_tokens(ts);
    if ts.len() == 0 {
        assert(next_token(s, 0) is TokEnd);
        assert(lex_from(s, 0) == Some(Seq::<TokenModel>::empty()));
        assert(Seq::<TokenModel>::empty() =~= ts);
    } else if ts.len() == 1 {
        let t = ts[0];
        let u = spec_print_token(t);
        lemma_token_step(t, Seq::empty());
        assert(u + Seq::<char>::empty() =~= u);
        assert(s == u);
        assert(next_token(s, 0) == NextTok::TokAt(t, u.len()));
        assert(next_token(s, s.len()) is TokEnd);
        assert(lex_from(s, s.len()) == Some(Seq::<TokenModel>::empty()));
        assert(seq![t] + Seq::<TokenModel>::empty() =~= ts);
    } else {
        let t = ts[0];
        let rest = ts.skip(1);
        let u = spec_print_token(t);
        let tail = seq![' '] + spec_print_tokens(rest);
        assert(forall|k: int| 0 <= k < rest.len() ==> rest[k] == ts[k + 1] && self_delimiting(
            #[trigger] rest[k],
        ));
        lemma_print_then_lex(rest);
        assert(s == u + seq![' '] + spec_print_tokens(rest));
        assert(s =~= u + tail);
        assert(tail[0] == ' ');
        lemma_token_step(t, tail);
        assert(next_token(u + tail, 0) == NextTok::TokAt(t, u.len()));
        // Reading on after the token crosses the separating space and
        // continues in the printed remainder.
        lemma_lex_from_shift(u, tail, 0);
        assert(lex_from(u + tail, u.len()) == lex_from(tail, 0));
        lemma_lex_from_shift(seq![' '], spec_print_tokens(rest), 0);
        assert(seq![' '] + spec_print_tokens(rest) == tail);
        assert(lex_from(tail, 1) == lex_from(spec_print_tokens(rest), 0));
        assert(next_token(tail, 0) == next_token(tail, 1));
        lemma_lex_ws_skip(tail);
        assert(lex_from(tail, 0) == lex_from(tail, 1));
        assert(lex_from(u + tail, 0) == (match lex_from(u + tail, u.len()) {
            Option::<Seq<TokenModel>>::None => None,
            Some(r) => Some(seq![t] + r),
        }));
        assert(seq![t] + rest =~= ts);
    }
}

/// Tokenizing from a leading space reads the same tokens as tokenizing
/// from just after it.
proof fn lemma_lex_ws_skip(tail: Seq<char>)
    requires
        tail.len() >= 1,
        tail[0] == ' ',
    ensures
        lex_from(tail, 0) == lex_from(tail, 1),
{
    assert(next_token(tail, 0) == next_token(tail, 1));
    match next_token(tail, 1) {
        NextTok::TokEnd => {},
        NextTok::TokErr => {},
        NextTok::TokAt(t2, j2) => {
            lemma_next_token_advances(tail, 1);
        },
    }
}


/// The run of a character class is local: scanning a suffix at an offset
/// sees the same run.
proof fn lemma_run_end_shift(u: Seq<char>, v: Seq<char>, i: nat, p: spec_fn(char) -> bool)
    requires
        i <= v.len(),
    ensures
        run_end(u + v, u.len() + i, p) == u.len() + run_end(v, i, p),
    decreases v.len() - i,
{
    let s = u + v;
    assert(s.len() == u.len() + v.len());
    if i < v.len() {
        assert(s[(u.len() + i) as int] == v[i as int]);
        if p(v[i as int]) {
            lemma_run_end_shift(u, v, i + 1, p);
        }
    }
}

/// The scanner is local: a token read at an offset is the token of the
/// suffix, moved by the offset.
proof fn lemma_next_token_shift(u: Seq<char>, v: Seq<char>, i: nat)
    requires
        i <= v.len(),
    ensures
        next_token(u + v, u.len() + i) == (match next_token(v, i) {
            NextTok::TokEnd => NextTok::TokEnd,
            NextTok::TokErr => NextTok::TokErr,
            NextTok::TokAt(t, j) => NextTok::TokAt(t, (u.len() + j) as nat),
        }),
    decreases v.len() - i,
{
    let s = u + v;
    let o = u.len();
    assert(s.len() == o + v.len());
    assert(forall|k: int| 0 <= k < v.len() ==> s[o + k] == #[trigger] v[k]);
    if i >= v.len() {
    } else {
        let c = v[i as int];
        assert(s[(o + i) as int] == c);
        if is_ws(c) {
            lemma_next_token_shift(u, v, i + 1);
        } else if c == ';' || c == ',' {
        } else if c == '"' {
            let p = |ch: char| ch != '"' && ch != '\n';
            lemma_run_end_shift(u, v, i + 1, p);
            let q = run_end(v, i + 1, p);
            lemma_run_end(v, i + 1, p);
            if q < v.len() && v[q as int] == '"' {
                assert(s.subrange((o + i + 1) as int, (o + q) as int) =~= v.subrange((i + 1) as int, q as int));
            }
        } else if c == '#' {
            lemma_scan_number_shift(u, v, i + 1, 10);
        } else if c == 'x' {
            lemma_scan_number_shift(u, v, i + 1, 16);
        } else if c == 'b' {
            lemma_scan_number_shift(u, v, i + 1, 2);
        } else if c == '.' {
            let p = |ch: char| is_alpha(ch);
            lemma_run_end_shift(u, v, i + 1, p);
            let e = run_end(v, i + 1, p);
            lemma_run_end(v, i + 1, p);
            assert(is_term_at(s, o + e) == is_term_at(v, e));
            assert(s.subrange((o + i + 1) as int, (o + e) as int) =~= v.subrange((i + 1) as int, e as int));
        } else if is_dec_digit(c) {
            lemma_scan_number_shift(u, v, i, 10);
        } else if is_ident_char(c) {
            let p = |ch: char| is_ident_char(ch);
            lemma_run_end_shift(u, v, i, p);
            let e = run_end(v, i, p);
            lemma_run_end(v, i, p);
            assert(s.subrange((o + i) as int, (o + e) as int) =~= v.subrange(i as int, e as int));
        } else {
        }
    }
}

/// Number scanning is local in the same way.
proof fn lemma_scan_number_shift(u: Seq<char>, v: Seq<char>, j: nat, base: u32)
    requires
        j <= v.len(),
    ensures
        scan_number(u + v, (u.len() + j) as nat, base) == (match scan_number(v, j, base) {
            NextTok::TokEnd => NextTok::TokEnd,
            NextTok::TokErr => NextTok::TokErr,
            NextTok::TokAt(t, e) => NextTok::TokAt(t, (u.len() + e) as nat),
        }),
{
    let s = u + v;
    let o = u.len();
    assert(s.len() == o + v.len());
    assert(forall|k: int| 0 <= k < v.len() ==> s[o + k] == #[trigger] v[k]);
    let neg = j < v.len() && v[j as int] == '-';
    let k: nat = if neg {
        j + 1
    } else {
        j
    };
    let p = |ch: char| is_digit_of(ch, base);
    lemma_run_end_shift(u, v, k, p);
    let e = run_end(v, k, p);
    lemma_run_end(v, k, p);
    assert(is_term_at(s, o + e) == is_term_at(v, e));
    assert(s.subrange((o + k) as int, (o + e) as int) =~= v.subrange(k as int, e as int));
}

/// Tokenizing is local: the tokens read from an offset are the tokens of
/// the suffix.
proof fn lemma_lex_from_shift(u: Seq<char>, v: Seq<char>, i: nat)
    requires
        i <= v.len(),
    ensures
        lex_from(u + v, u.len() + i) == lex_from(v, i),
    decreases v.len() - i,
{
    let s = u + v;
    let o = u.len();
    lemma_next_token_shift(u, v, i);
    match next_token(v, i) {
        NextTok::TokEnd => {},
        NextTok::TokErr => {},
        NextTok::TokAt(t, j) => {
            lemma_next_token_advances(v, i);
            lemma_lex_from_shift(u, v, j);
        },
    }
}

} // verus!
