//! The external object and symbol formats: an object is a sequence of
//! 16-bit big-endian words, the first being the origin; a symbol file is a
//! text file with one four-field record per line.  Reading a written object
//! gives back a value-equal image.

use vstd::prelude::*;
use vstd::string::*;
use crate::binary_utils::{neg16, to_signed};
use crate::assemble::{ExecutableImageOut, Symbol, SymbolModel, SymbolStatus};
use crate::error::FileLoadError;
use crate::tokenizer::{
    Sign,
    Token,
    TokenModel,
    chars_to_string,
    digits_of,
    digits_string,
    lex_line_spec,
    push_str_chars,
    tokens_model,
};

verus! {

/// Byte order of a persisted word.
#[derive(Clone, Copy, Debug, PartialEq, Eq, Structural)]
pub enum Endian {
    Big,
    Little,
}

/// The bytes of a word sequence, each word split big-endian.
pub open spec fn spec_words_to_bytes(ws: Seq<u16>) -> Seq<u8> {
    Seq::new(
        ws.len() * 2,
        |i: int|
            if i % 2 == 0 {
                (ws[i / 2] >> 8) as u8
            } else {
                (ws[i / 2] & 0xFF) as u8
            },
    )
}

/// The words of a byte sequence, each pair merged big-endian.
pub open spec fn spec_bytes_to_words(bs: Seq<u8>) -> Seq<u16> {
    Seq::new((bs.len() / 2) as nat, |i: int| ((bs[2 * i] as u16) * 256 + (bs[2 * i + 1] as u16)) as u16)
}

/// Splitting words into big-endian bytes and merging them back is the
/// identity.
pub proof fn lemma_words_bytes_roundtrip(ws: Seq<u16>)
    ensures
        spec_bytes_to_words(spec_words_to_bytes(ws)) == ws,
{
    let bs = spec_words_to_bytes(ws);
    assert(bs.len() == ws.len() * 2);
    assert forall|i: int| 0 <= i < ws.len() implies spec_bytes_to_words(bs)[i] == ws[i] by {
        assert((2 * i) / 2 == i);
        assert((2 * i + 1) / 2 == i);
        assert(bs[2 * i] == (ws[i] >> 8) as u8);
        assert(bs[2 * i + 1] == (ws[i] & 0xFF) as u8);
        let w = ws[i];
        assert(((w >> 8) as u8 as u16) * 256 + ((w & 0xFF) as u8 as u16) == w) by (bit_vector);
    }
    assert(spec_bytes_to_words(bs) =~= ws);
}

/// Writing any word list as object bytes and reading them back yields the
/// same origin word and contents: the persisted image is value-equal.
pub proof fn lemma_image_roundtrip(origin: u16, words: Seq<u16>)
    ensures
        ({
            let rt = spec_bytes_to_words(spec_words_to_bytes(seq![origin] + words));
            rt.len() == words.len() + 1 && rt[0] == origin && rt.skip(1) == words
        }),
{
    lemma_words_bytes_roundtrip(seq![origin] + words);
    assert((seq![origin] + words).skip(1) =~= words);
}

/// Splits words into bytes, big-endian per word.
pub fn words_to_bytes(ws: &Vec<u16>) -> (r: Vec<u8>)
    ensures
        r@ == spec_words_to_bytes(ws@),
{
    let mut out: Vec<u8> = Vec::new();
    let mut i: usize = 0;
    while i < ws.len()
        invariant
            i <= ws@.len(),
            out@ =~= spec_words_to_bytes(ws@).take(2 * i as int),
        decreases ws@.len() - i,
    {
        let w = ws[i];
        proof {
            assert(2 * (i as int) / 2 == i as int);
            assert((2 * (i as int) + 1) / 2 == i as int);
        }
        out.push((w >> 8) as u8);
        out.push((w & 0xFF) as u8);
        proof {
            assert(out@ =~= spec_words_to_bytes(ws@).take(2 * (i as int + 1)));
        }
        i += 1;
    }
    proof {
        assert(out@ =~= spec_words_to_bytes(ws@));
    }
    out
}

/// Merges byte pairs into words, big-endian per word.  A byte list that is
/// empty or of odd length is not a valid object.
pub fn bytes_to_words(bs: &Vec<u8>) -> (r: Result<Vec<u16>, FileLoadError>)
    ensures
        (bs@.len() == 0 || bs@.len() % 2 != 0) ==> r == Result::<Vec<u16>, FileLoadError>::Err(
            FileLoadError::InvalidBinary,
        ),
        (bs@.len() > 0 && bs@.len() % 2 == 0) ==> (r matches Ok(ws) && ws@ == spec_bytes_to_words(
            bs@,
        )),
{
    if bs.len() == 0 || bs.len() % 2 != 0 {
        return Err(FileLoadError::InvalidBinary);
    }
    let mut out: Vec<u16> = Vec::new();
    let mut i: usize = 0;
    let len = bs.len();
    let n = len / 2;
    while i < n
        invariant
            i <= n,
            len == bs@.len(),
            n == bs@.len() / 2,
            2 * n <= len,
            out@ =~= spec_bytes_to_words(bs@).take(i as int),
        decreases n - i,
    {
        proof {
            assert(2 * (i as int) < bs@.len());
        }
        let hi = bs[2 * i];
        let lo = bs[2 * i + 1];
        out.push((hi as u16) * 256 + (lo as u16));
        proof {
            assert(out@ =~= spec_bytes_to_words(bs@).take(i as int + 1));
        }
        i += 1;
    }
    proof {
        assert(out@ =~= spec_bytes_to_words(bs@));
    }
    Ok(out)
}

/// The word list of a produced image: the origin first, then the
/// instruction words, then the data words, in order.
pub open spec fn spec_image_words(img: ExecutableImageOut) -> Seq<u16> {
    seq![img.origin] + img.instructions@.map_values(|w: crate::assemble::MemoryWrite| w.value)
        + img.data@.map_values(|w: crate::assemble::MemoryWrite| w.value)
}

/// The persisted word list of an image.
pub fn image_to_words(img: &ExecutableImageOut) -> (r: Vec<u16>)
    ensures
        r@ == spec_image_words(*img),
{
    let mut out: Vec<u16> = Vec::new();
    out.push(img.origin);
    let mut i: usize = 0;
    while i < img.instructions.len()
        invariant
            i <= img.instructions@.len(),
            out@ =~= seq![img.origin] + img.instructions@.map_values(
                |w: crate::assemble::MemoryWrite| w.value,
            ).take(i as int),
        decreases img.instructions@.len() - i,
    {
        out.push(img.instructions[i].value);
        proof {
            assert(out@ =~= seq![img.origin] + img.instructions@.map_values(
                |w: crate::assemble::MemoryWrite| w.value,
            ).take(i as int + 1));
        }
        i += 1;
    }
    let ghost mid = seq![img.origin] + img.instructions@.map_values(
        |w: crate::assemble::MemoryWrite| w.value,
    );
    proof {
        assert(out@ =~= mid);
    }
    let mut j: usize = 0;
    while j < img.data.len()
        invariant
            j <= img.data@.len(),
            out@ =~= mid + img.data@.map_values(|w: crate::assemble::MemoryWrite| w.value).take(
                j as int,
            ),
        decreases img.data@.len() - j,
    {
        out.push(img.data[j].value);
        proof {
            assert(out@ =~= mid + img.data@.map_values(
                |w: crate::assemble::MemoryWrite| w.value,
            ).take(j as int + 1));
        }
        j += 1;
    }
    proof {
        assert(out@ =~= spec_image_words(*img));
    }
    out
}

/// The object bytes of a produced image: its words, big-endian each.
pub fn image_to_bytes(img: &ExecutableImageOut) -> (r: Vec<u8>)
    ensures
        r@ == spec_words_to_bytes(spec_image_words(*img)),
{
    let ws = image_to_words(img);
    words_to_bytes(&ws)
}

// ---------------------------------------------------------------------------
// The symbol file format
// ---------------------------------------------------------------------------

/// The numeric code of a symbol status.
pub open spec fn status_code(st: SymbolStatus) -> u16 {
    match st {
        SymbolStatus::Private => 0,
        SymbolStatus::Export => 1,
        SymbolStatus::Import => 2,
    }
}

/// One symbol record line: name, `#` signed decimal relative address, `x`
/// hexadecimal absolute address, and the status code, separated by single
/// spaces.
pub open spec fn spec_symbol_line(s: SymbolModel) -> Seq<char> {
    s.name + seq![' ', '#'] + (if to_signed(s.rel_addr) < 0 {
        seq!['-'] + digits_of(neg16(s.rel_addr) as nat, 10)
    } else {
        digits_of(s.rel_addr as nat, 10)
    }) + seq![' ', 'x'] + digits_of(s.abs_addr as nat, 16) + seq![' '] + digits_of(
        status_code(s.status) as nat,
        10,
    )
}

/// Renders one symbol record.
pub fn symbol_line(s: &Symbol) -> (r: String)
    ensures
        r@ == spec_symbol_line(s@),
{
    let mut out: Vec<char> = Vec::new();
    push_str_chars(&mut out, s.name.as_str());
    out.push(' ');
    out.push('#');
    if crate::binary_utils::is_negative(s.rel_addr) {
        out.push('-');
        let mut ds = digits_string(crate::binary_utils::invert_sign(s.rel_addr), 10);
        out.append(&mut ds);
    } else {
        let mut ds = digits_string(s.rel_addr, 10);
        out.append(&mut ds);
    }
    out.push(' ');
    out.push('x');
    let mut hs = digits_string(s.abs_addr, 16);
    out.append(&mut hs);
    out.push(' ');
    let code: u16 = match s.status {
        SymbolStatus::Private => 0,
        SymbolStatus::Export => 1,
        SymbolStatus::Import => 2,
    };
    let mut cs = digits_string(code, 10);
    out.append(&mut cs);
    proof {
        assert(out@ =~= spec_symbol_line(s@));
    }
    chars_to_string(&out)
}

/// Renders a whole symbol table, one record per line.
pub fn symbol_lines(syms: &Vec<Symbol>) -> (r: Vec<String>)
    ensures
        r@.len() == syms@.len(),
        forall|k: int| 0 <= k < syms@.len() ==> r@[k]@ == spec_symbol_line(syms@[k]@),
{
    let mut out: Vec<String> = Vec::new();
    let mut i: usize = 0;
    while i < syms.len()
        invariant
            i <= syms@.len(),
            out@.len() == i,
            forall|k: int| 0 <= k < i ==> out@[k]@ == spec_symbol_line(syms@[k]@),
        decreases syms@.len() - i,
    {
        let line = symbol_line(&syms[i]);
        out.push(line);
        i += 1;
    }
    out
}

/// The symbol one record line denotes: a label, a decimal relative
/// address, a hexadecimal absolute address, and a status code of 0, 1 or
/// 2, as four tokens.
pub open spec fn spec_symbol_of_line(s: Seq<char>) -> Option<SymbolModel> {
    match lex_line_spec(s) {
        None => None,
        Some(ts) => {
            if ts.len() != 4 {
                None
            } else {
                match (ts[0], ts[1], ts[2], ts[3]) {
                    (
                        TokenModel::Label(name),
                        TokenModel::DecimalLiteral(rel),
                        TokenModel::HexLiteral(abs),
                        TokenModel::DecimalLiteral(code),
                    ) => {
                        if code.sign == Sign::PLUS && code.value <= 2 {
                            Some(
                                SymbolModel {
                                    name: name,
                                    rel_addr: crate::assemble::lit_word(rel),
                                    abs_addr: abs.value,
                                    src_ln_number: 0,
                                    size_in_words: 0,
                                    status: if code.value == 0 {
                                        SymbolStatus::Private
                                    } else if code.value == 1 {
                                        SymbolStatus::Export
                                    } else {
                                        SymbolStatus::Import
                                    },
                                },
                            )
                        } else {
                            None
                        }
                    },
                    _ => None,
                }
            }
        },
    }
}

/// Parses the lines of a symbol file.  Any malformed record makes the
/// whole file invalid.
pub fn symbols_from_lines(lines: &Vec<String>) -> (r: Result<Vec<Symbol>, FileLoadError>)
    ensures
        match r {
            Ok(syms) => syms@.len() == lines@.len() && forall|k: int|
                0 <= k < lines@.len() ==> spec_symbol_of_line(lines@[k]@) == Some(
                    #[trigger] syms@[k]@,
                ),
            Err(e) => e == FileLoadError::InvalidSymbols && exists|k: int|
                0 <= k < lines@.len() && spec_symbol_of_line(#[trigger] lines@[k]@) is None,
        },
{
    let mut out: Vec<Symbol> = Vec::new();
    let mut i: usize = 0;
    while i < lines.len()
        invariant
            i <= lines@.len(),
            out@.len() == i,
            forall|k: int|
                0 <= k < i ==> spec_symbol_of_line(lines@[k]@) == Some(#[trigger] out@[k]@),
        decreases lines@.len() - i,
    {
        let toks = match Token::tokenize_str_w_err(lines[i].as_str()) {
            Ok(ts) => ts,
            Err(m) => {
                return Err(FileLoadError::InvalidSymbols);
            },
        };
        if toks.len() != 4 {
            return Err(FileLoadError::InvalidSymbols);
        }
        proof {
            let tm = tokens_model(toks@);
            assert(tm[0] == toks@[0]@);
            assert(tm[1] == toks@[1]@);
            assert(tm[2] == toks@[2]@);
            assert(tm[3] == toks@[3]@);
        }
        let name: String = match &toks[0] {
            Token::Label(nm) => nm.clone(),
            _ => {
                return Err(FileLoadError::InvalidSymbols);
            },
        };
        let rel_addr: u16 = match &toks[1] {
            Token::DecimalLiteral(l) => {
                if matches!(l.sign, Sign::MINUS) {
                    crate::binary_utils::invert_sign(l.value)
                } else {
                    l.value
                }
            },
            _ => {
                return Err(FileLoadError::InvalidSymbols);
            },
        };
        let abs_addr: u16 = match &toks[2] {
            Token::HexLiteral(l) => l.value,
            _ => {
                return Err(FileLoadError::InvalidSymbols);
            },
        };
        let status: SymbolStatus = match &toks[3] {
            Token::DecimalLiteral(l) => {
                if matches!(l.sign, Sign::MINUS) {
                    return Err(FileLoadError::InvalidSymbols);
                } else if l.value == 0 {
                    SymbolStatus::Private
                } else if l.value == 1 {
                    SymbolStatus::Export
                } else if l.value == 2 {
                    SymbolStatus::Import
                } else {
                    return Err(FileLoadError::InvalidSymbols);
                }
            },
            _ => {
                return Err(FileLoadError::InvalidSymbols);
            },
        };
        let sym = Symbol { name, rel_addr, abs_addr, src_ln_number: 0, size_in_words: 0, status };
        out.push(sym);
        i += 1;
    }
    Ok(out)
}

} // verus!
