//! The two-pass assembler and linker: symbol discovery, directive
//! materialization, instruction encoding against the instruction-set table,
//! and cross-image symbol resolution.

use vstd::prelude::*;
use vstd::string::*;
use crate::error::{AsmErrorType, AsmblrErr, FileLoadError};
use crate::tokenizer::{NumberLiteral, Sign, SourceLine, SourceLineModel, Token, lex_line_spec, spec_is_comment_line, spec_strip_comment, TokenModel, num_lit_of, seq_eq_ci, str_eq, str_eq_ci, tokens_model};
use crate::binary_utils::{add_2s_complement, bit_set, bits_for, field_spec, flag_is_set, invert_sign, lemma_shl1_pos, low_mask, neg16, sext_spec, to_signed, truncate_to, wrap_add};
use crate::virtual_machine::{OP, spec_op_code};

verus! {

/// Whether a symbol is local to its image, offered to other images, or
/// expected from another image.
#[derive(Clone, Copy, Debug, PartialEq, Eq, Structural)]
pub enum SymbolStatus {
    Private,
    Export,
    Import,
}

/// One entry of the symbol table: a label, its relative and absolute
/// addresses, the line that defined it, how many words it spans, and its
/// linkage status.
#[derive(Clone, Debug)]
pub struct Symbol {
    pub name: String,
    pub rel_addr: u16,
    pub abs_addr: u16,
    pub src_ln_number: u16,
    pub size_in_words: u16,
    pub status: SymbolStatus,
}

/// The mathematical shape of a symbol.
pub struct SymbolModel {
    pub name: Seq<char>,
    pub rel_addr: u16,
    pub abs_addr: u16,
    pub src_ln_number: u16,
    pub size_in_words: u16,
    pub status: SymbolStatus,
}

impl View for Symbol {
    type V = SymbolModel;

    open spec fn view(&self) -> SymbolModel {
        SymbolModel {
            name: self.name@,
            rel_addr: self.rel_addr,
            abs_addr: self.abs_addr,
            src_ln_number: self.src_ln_number,
            size_in_words: self.size_in_words,
            status: self.status,
        }
    }
}

pub type SymbolTable = Vec<Symbol>;

/// The models of a symbol table, in order.
pub open spec fn symbols_model(syms: Seq<Symbol>) -> Seq<SymbolModel> {
    syms.map_values(|s: Symbol| s@)
}

/// The tokens of one source line together with its relative address and its
/// line number in the file.
#[derive(Clone, Debug)]
pub struct TokenizedLine {
    pub rel_addr: u16,
    pub src_ln_number: u16,
    pub tokens: Vec<Token>,
}

/// The mathematical shape of a tokenized line.
pub struct TokenizedLineModel {
    pub rel_addr: u16,
    pub src_ln_number: u16,
    pub tokens: Seq<TokenModel>,
}

impl View for TokenizedLine {
    type V = TokenizedLineModel;

    open spec fn view(&self) -> TokenizedLineModel {
        TokenizedLineModel {
            rel_addr: self.rel_addr,
            src_ln_number: self.src_ln_number,
            tokens: tokens_model(self.tokens@),
        }
    }
}

/// One word destined for memory: where it goes relative to the origin, and
/// its value.
#[derive(Clone, Copy, Debug, PartialEq, Eq, Structural)]
pub struct MemoryWrite {
    pub rel_addr: u16,
    pub value: u16,
}

/// A produced image: origin, encoded instruction words, materialized data
/// words, and the symbol table.
#[derive(Debug)]
pub struct ExecutableImageOut {
    pub name: String,
    pub origin: u16,
    pub instructions: Vec<MemoryWrite>,
    pub data: Vec<MemoryWrite>,
    pub symbol_table: Vec<Symbol>,
}

impl ExecutableImageOut {
    /// A fresh, empty image carrying the given name.
    pub fn new(name: String) -> (r: Self)
        ensures
            r.name@ == name@,
            r.origin == 0,
            r.instructions@.len() == 0,
            r.data@.len() == 0,
            r.symbol_table@.len() == 0,
    {
        ExecutableImageOut {
            name,
            origin: 0,
            instructions: Vec::new(),
            data: Vec::new(),
            symbol_table: Vec::new(),
        }
    }
}

/// A loaded image: its origin and the words to place there in order.
#[derive(Clone, Debug)]
pub struct ExecutableImageIn {
    pub origin: u16,
    pub data: Vec<u16>,
}

/// The memory interval `[origin, origin + len - 1]` of a loaded image.
pub open spec fn image_range(img: ExecutableImageIn) -> (u16, u16) {
    (img.origin, (img.origin + img.data@.len() - 1) as u16)
}

/// Two closed intervals share at least one point.
pub open spec fn ranges_overlap_spec(a: (u16, u16), b: (u16, u16)) -> bool {
    !(a.1 < b.0 || a.0 > b.1)
}

/// A loaded image is well formed when it has at least one word and fits in
/// the address space.
pub open spec fn image_in_wf(img: ExecutableImageIn) -> bool {
    1 <= img.data@.len() && img.origin + img.data@.len() - 1 <= 0xFFFF
}

impl ExecutableImageIn {
    /// Splits a raw word list into origin and contents.  A list with no
    /// word beyond the origin is rejected.
    pub fn from_binary(binary: Vec<u16>) -> (r: Result<Self, FileLoadError>)
        ensures
            binary@.len() <= 1 ==> r == Result::<Self, FileLoadError>::Err(
                FileLoadError::InvalidBinary,
            ),
            binary@.len() > 1 ==> (r matches Ok(img) && img.origin == binary@[0] && img.data@
                == binary@.skip(1)),
    {
        if binary.len() <= 1 {
            return Err(FileLoadError::InvalidBinary);
        }
        let origin = binary[0];
        let mut data: Vec<u16> = Vec::new();
        let mut i: usize = 1;
        while i < binary.len()
            invariant
                1 <= i <= binary@.len(),
                data@ =~= binary@.subrange(1, i as int),
            decreases binary@.len() - i,
        {
            data.push(binary[i]);
            i += 1;
        }
        proof {
            assert(data@ =~= binary@.skip(1));
        }
        Ok(ExecutableImageIn { origin, data })
    }

    /// The memory interval this image occupies.
    fn range(&self) -> (r: (u16, u16))
        requires
            image_in_wf(*self),
        ensures
            r == image_range(*self),
            r.0 <= r.1,
    {
        (self.origin, self.origin + ((self.data.len() - 1) as u16))
    }

    /// Whether two closed intervals share a point; exact for well-formed
    /// intervals whose lower bound is at most their upper bound.
    fn ranges_overlaps(a: (u16, u16), b: (u16, u16)) -> (r: bool)
        ensures
            r == !((a.0 < b.0 && a.1 < b.0) || (a.0 > b.1 && a.1 > b.1)),
            a.0 <= a.1 && b.0 <= b.1 ==> r == ranges_overlap_spec(a, b),
    {
        let (min1, max1) = a;
        let (min2, max2) = b;
        !((min1 < min2 && max1 < min2) || (min1 > max2 && max1 > max2))
    }

    /// Searches every pair of images for overlapping memory intervals and
    /// reports the first overlapping pair of intervals found.
    pub fn images_overlap(images: &Vec<ExecutableImageIn>) -> (r: Option<((u16, u16), (u16, u16))>)
        requires
            forall|k: int| 0 <= k < images@.len() ==> image_in_wf(#[trigger] images@[k]),
        ensures
            match r {
                Some(pair) => exists|i: int, j: int|
                    0 <= i < j < images@.len() && pair == (
                        image_range(images@[i]),
                        image_range(images@[j]),
                    ) && ranges_overlap_spec(image_range(images@[i]), image_range(images@[j])),
                None => forall|i: int, j: int|
                    0 <= i < j < images@.len() ==> !ranges_overlap_spec(
                        image_range(#[trigger] images@[i]),
                        image_range(#[trigger] images@[j]),
                    ),
            },
    {
        let n = images.len();
        if n < 2 {
            return None;
        }
        let mut i: usize = 0;
        while i < n
            invariant
                i <= n,
                n == images@.len(),
                forall|a: int, b: int|
                    0 <= a < b < images@.len() && a < i ==> !ranges_overlap_spec(
                        image_range(#[trigger] images@[a]),
                        image_range(#[trigger] images@[b]),
                    ),
                forall|k: int| 0 <= k < images@.len() ==> image_in_wf(#[trigger] images@[k]),
            decreases n - i,
        {
            let ri = images[i].range();
            let mut j: usize = i + 1;
            while j < n
                invariant
                    i < j <= n,
                    i < n,
                    n == images@.len(),
                    ri == image_range(images@[i as int]),
                    forall|b: int|
                        i < b < j ==> !ranges_overlap_spec(
                            image_range(images@[i as int]),
                            image_range(#[trigger] images@[b]),
                        ),
                    forall|k: int| 0 <= k < images@.len() ==> image_in_wf(#[trigger] images@[k]),
                decreases n - j,
            {
                let rj = images[j].range();
                if Self::ranges_overlaps(ri, rj) {
                    return Some((ri, rj));
                }
                j += 1;
            }
            i += 1;
        }
        None
    }
}

// ---------------------------------------------------------------------------
// The instruction-set table
// ---------------------------------------------------------------------------

/// The shape of one operand of an instruction.
#[derive(Clone, Copy, Debug, PartialEq, Eq, Structural)]
pub enum Param {
    Bits(u16),
    Register(u16),
    Label,
    RegisterORImm5,
    RegisterMultiMapped(u16, u16),
}

/// One instruction definition: the opcode held in the top nibble, bits that
/// every encoding of this variant sets, bits that distinguish it from
/// related variants by staying clear, and the operand schema.
#[derive(Debug)]
pub struct InstrDef {
    pub opcode: u16,
    pub flags_word: u16,
    pub not_flags_word: u16,
    pub params: Vec<Param>,
}

/// An operand shape stays within the word: register fields fit below bit
/// 15 and immediate widths are 1 to 16 bits.
pub open spec fn param_wf(p: Param) -> bool {
    match p {
        Param::Bits(n) => 1 <= n <= 16,
        Param::Register(pos) => pos <= 13,
        Param::RegisterMultiMapped(p1, p2) => p1 <= 13 && p2 <= 13,
        Param::Label => true,
        Param::RegisterORImm5 => true,
    }
}

/// A definition is well formed when its opcode sits in the top nibble alone
/// and each operand shape is well formed.
pub open spec fn def_wf(d: InstrDef) -> bool {
    &&& d.opcode & 0x0FFF == 0
    &&& forall|k: int| 0 <= k < d.params@.len() ==> param_wf(#[trigger] d.params@[k])
}

impl InstrDef {
    /// A definition whose opcode nibble comes from the operation.
    pub fn new(opcode: OP, flags_word: u16, not_flags_word: u16, params: Vec<Param>) -> (r: Self)
        ensures
            r.opcode == spec_op_code(opcode) * 0x1000,
            r.flags_word == flags_word,
            r.not_flags_word == not_flags_word,
            r.params@ == params@,
            r.opcode & 0x0FFF == 0,
    {
        let c = opcode.code();
        proof {
            assert(c < 16 ==> (c << 12u16) == c * 0x1000 && (c * 0x1000) as u16 & 0x0FFF == 0)
                by (bit_vector);
        }
        InstrDef { opcode: c << 12, flags_word, not_flags_word, params }
    }
}

/// An empty operand list.
fn params0() -> (r: Vec<Param>)
    ensures
        r@ =~= Seq::<Param>::empty(),
{
    Vec::new()
}

/// A one-operand list.
fn params1(a: Param) -> (r: Vec<Param>)
    ensures
        r@ =~= seq![a],
{
    let mut v = Vec::new();
    v.push(a);
    v
}

/// A two-operand list.
fn params2(a: Param, b: Param) -> (r: Vec<Param>)
    ensures
        r@ =~= seq![a, b],
{
    let mut v = Vec::new();
    v.push(a);
    v.push(b);
    v
}

/// A three-operand list.
fn params3(a: Param, b: Param, c: Param) -> (r: Vec<Param>)
    ensures
        r@ =~= seq![a, b, c],
{
    let mut v = Vec::new();
    v.push(a);
    v.push(b);
    v.push(c);
    v
}

/// Every definition of a table is well formed.
pub open spec fn table_wf(es: Seq<(String, InstrDef)>) -> bool {
    forall|k: int| 0 <= k < es.len() ==> def_wf((#[trigger] es[k]).1)
}

/// The mathematical shape of an instruction definition.
pub struct InstrDefModel {
    pub opcode: u16,
    pub flags_word: u16,
    pub not_flags_word: u16,
    pub params: Seq<Param>,
}

/// The shape of one table entry: the mnemonic's text and its definition.
pub struct TableEntryModel {
    pub mnemonic: Seq<char>,
    pub def: InstrDefModel,
}

/// The shape of a definition value.
pub open spec fn def_model(d: InstrDef) -> InstrDefModel {
    InstrDefModel {
        opcode: d.opcode,
        flags_word: d.flags_word,
        not_flags_word: d.not_flags_word,
        params: d.params@,
    }
}

/// The shape of a whole table.
pub open spec fn table_model(es: Seq<(String, InstrDef)>) -> Seq<TableEntryModel> {
    es.map_values(
        |e: (String, InstrDef)| TableEntryModel { mnemonic: e.0@, def: def_model(e.1) },
    )
}

/// One canonical entry.
pub open spec fn table_entry(
    mnemonic: Seq<char>,
    opcode: u16,
    flags_word: u16,
    not_flags_word: u16,
    params: Seq<Param>,
) -> TableEntryModel {
    TableEntryModel {
        mnemonic,
        def: InstrDefModel { opcode, flags_word, not_flags_word, params },
    }
}

/// The canonical instruction table of the language: every mnemonic with
/// its opcode bits, required bits, forbidden bits and operand schema, in
/// resolution order — the single source of truth the encoder and the
/// disassembler work from (more specific variants before the general forms
/// sharing their opcode).
pub open spec fn canonical_table() -> Seq<TableEntryModel> {
    seq![
        table_entry(
            "ADD"@,
            0x1000,
            0,
            0b0000_110_110_0_00000,
            seq![Param::Register(9), Param::Register(6), Param::RegisterORImm5],
        ),
        table_entry(
            "AND"@,
            0x5000,
            0,
            0,
            seq![Param::Register(9), Param::Register(6), Param::RegisterORImm5],
        ),
        table_entry("BRN"@, 0x0000, 0x0800, 0, seq![Param::Label]),
        table_entry("BRZ"@, 0x0000, 0x0400, 0, seq![Param::Label]),
        table_entry("BRP"@, 0x0000, 0x0200, 0, seq![Param::Label]),
        table_entry("BRNZ"@, 0x0000, 0x0C00, 0, seq![Param::Label]),
        table_entry("BRNP"@, 0x0000, 0x0A00, 0, seq![Param::Label]),
        table_entry("BRZP"@, 0x0000, 0x0600, 0, seq![Param::Label]),
        table_entry("BRNZP"@, 0x0000, 0x0E00, 0, seq![Param::Label]),
        table_entry("BR"@, 0x0000, 0, 0x0E00, seq![Param::Label]),
        table_entry("RET"@, 0xC000, 0b0000_000_111_000000, 0, Seq::empty()),
        table_entry("JMP"@, 0xC000, 0, 0b0000_000_111_000000, seq![Param::Register(6)]),
        table_entry("JSR"@, 0x4000, 0x0800, 0, seq![Param::Label]),
        table_entry("JSRR"@, 0x4000, 0, 0x0800, seq![Param::Register(6)]),
        table_entry("LD"@, 0x2000, 0, 0, seq![Param::Register(9), Param::Label]),
        table_entry("LDI"@, 0xA000, 0, 0, seq![Param::Register(9), Param::Label]),
        table_entry(
            "LDR"@,
            0x6000,
            0,
            0,
            seq![Param::Register(9), Param::Register(6), Param::Bits(6)],
        ),
        table_entry("LEA"@, 0xE000, 0, 0, seq![Param::Register(9), Param::Label]),
        table_entry("NOT"@, 0x9000, 0b11_1111, 0, seq![Param::Register(9), Param::Register(6)]),
        table_entry("RTI"@, 0x8000, 0, 0, Seq::empty()),
        table_entry("ST"@, 0x3000, 0, 0, seq![Param::Register(9), Param::Label]),
        table_entry("STI"@, 0xB000, 0, 0, seq![Param::Register(9), Param::Label]),
        table_entry(
            "STR"@,
            0x7000,
            0,
            0,
            seq![Param::Register(9), Param::Register(6), Param::Bits(6)],
        ),
        table_entry("IN"@, 0xF000, 0x23, 0, Seq::empty()),
        table_entry("OUT"@, 0xF000, 0x21, 0, Seq::empty()),
        table_entry("PUTS"@, 0xF000, 0x22, 0, Seq::empty()),
        table_entry("HALT"@, 0xF000, 0x25, 0, Seq::empty()),
        table_entry("GETC"@, 0xF000, 0x20, 0, Seq::empty()),
        table_entry("TRAP"@, 0xF000, 0, 0, seq![Param::Bits(8)]),
        table_entry("PUSH!"@, 0xD000, 0, 0x0800, seq![Param::Register(6)]),
        table_entry("POP!"@, 0xD000, 0x0800, 0, seq![Param::Register(6)]),
        table_entry("SP++"@, 0x1000, 0b0000_110_110_1_00001, 0b0000_000_000_0_11110, Seq::empty()),
        table_entry("SP--"@, 0x1000, 0b0000_110_110_1_11111, 0, Seq::empty()),
        table_entry(
            "COPY!"@,
            0x1000,
            0b0000_000_000_1_00000,
            0b0000_000_000_0_11111,
            seq![Param::Register(9), Param::Register(6)],
        ),
        table_entry("ZERO!"@, 0x5000, 0b1_00000, 0, seq![Param::RegisterMultiMapped(9, 6)]),
        table_entry(
            "SET_COND!"@,
            0x1000,
            0b1_00000,
            0b11111,
            seq![Param::RegisterMultiMapped(9, 6)],
        ),
    ]
}

/// Appends one definition to the table, keeping every definition well
/// formed.
fn add_entry(
    entries: &mut Vec<(String, InstrDef)>,
    name: &str,
    opcode: OP,
    flags_word: u16,
    not_flags_word: u16,
    params: Vec<Param>,
)
    requires
        table_wf(old(entries)@),
        forall|k: int| 0 <= k < params@.len() ==> param_wf(#[trigger] params@[k]),
    ensures
        final(entries)@.len() == old(entries)@.len() + 1,
        final(entries)@.subrange(0, old(entries)@.len() as int) == old(entries)@,
        table_model(final(entries)@) == table_model(old(entries)@).push(
            table_entry(
                name@,
                (spec_op_code(opcode) * 0x1000) as u16,
                flags_word,
                not_flags_word,
                params@,
            ),
        ),
        table_wf(final(entries)@),
{
    let d = InstrDef::new(opcode, flags_word, not_flags_word, params);
    entries.push((name.to_owned(), d));
    proof {
        assert(final(entries)@.subrange(0, old(entries)@.len() as int) =~= old(entries)@);
        assert(table_model(final(entries)@) =~= table_model(old(entries)@).push(
            table_entry(
                name@,
                (spec_op_code(opcode) * 0x1000) as u16,
                flags_word,
                not_flags_word,
                params@,
            ),
        ));
    }
}

/// The instruction-set table: the single source of truth for the encoder
/// and the disassembler.  More specific variants stand before the general
/// forms that share their opcode, so the most specific disassembly match
/// wins.
pub struct InstructionSet {
    pub entries: Vec<(String, InstrDef)>,
}

/// The index of the first table entry whose mnemonic equals `name` without
/// regard to case.
pub open spec fn lookup_idx(es: Seq<TableEntryModel>, name: Seq<char>, k: nat) -> Option<int>
    decreases es.len() - k,
{
    if k >= es.len() {
        None
    } else if seq_eq_ci(name, es[k as int].mnemonic) {
        Some(k as int)
    } else {
        lookup_idx(es, name, k + 1)
    }
}

impl InstructionSet {
    /// Builds the canonical mnemonic table.
    #[verifier::rlimit(100)]
    pub fn define_instruction_set() -> (r: InstructionSet)
        ensures
            table_wf(r.entries@),
            r.entries@.len() > 0,
            table_model(r.entries@) == canonical_table(),
    {
        let mut es: Vec<(String, InstrDef)> = Vec::new();
        proof {
            assert(table_model(es@) =~= Seq::<TableEntryModel>::empty());
        }
        add_entry(
            &mut es,
            "ADD",
            OP::ADD,
            0,
            0b0000_110_110_0_00000,
            params3(Param::Register(9), Param::Register(6), Param::RegisterORImm5),
        );
        add_entry(
            &mut es,
            "AND",
            OP::AND,
            0,
            0,
            params3(Param::Register(9), Param::Register(6), Param::RegisterORImm5),
        );
        add_entry(&mut es, "BRN", OP::BR, 0x0800, 0, params1(Param::Label));
        add_entry(&mut es, "BRZ", OP::BR, 0x0400, 0, params1(Param::Label));
        add_entry(&mut es, "BRP", OP::BR, 0x0200, 0, params1(Param::Label));
        add_entry(&mut es, "BRNZ", OP::BR, 0x0C00, 0, params1(Param::Label));
        add_entry(&mut es, "BRNP", OP::BR, 0x0A00, 0, params1(Param::Label));
        add_entry(&mut es, "BRZP", OP::BR, 0x0600, 0, params1(Param::Label));
        add_entry(&mut es, "BRNZP", OP::BR, 0x0E00, 0, params1(Param::Label));
        add_entry(&mut es, "BR", OP::BR, 0, 0x0E00, params1(Param::Label));
        add_entry(&mut es, "RET", OP::JMP, 0b0000_000_111_000000, 0, params0());
        add_entry(&mut es, "JMP", OP::JMP, 0, 0b0000_000_111_000000, params1(Param::Register(6)));
        add_entry(&mut es, "JSR", OP::JSR, 0x0800, 0, params1(Param::Label));
        add_entry(&mut es, "JSRR", OP::JSR, 0, 0x0800, params1(Param::Register(6)));
        add_entry(&mut es, "LD", OP::LD, 0, 0, params2(Param::Register(9), Param::Label));
        add_entry(&mut es, "LDI", OP::LDI, 0, 0, params2(Param::Register(9), Param::Label));
        add_entry(
            &mut es,
            "LDR",
            OP::LDR,
            0,
            0,
            params3(Param::Register(9), Param::Register(6), Param::Bits(6)),
        );
        add_entry(&mut es, "LEA", OP::LEA, 0, 0, params2(Param::Register(9), Param::Label));
        add_entry(
            &mut es,
            "NOT",
            OP::NOT,
            0b11_1111,
            0,
            params2(Param::Register(9), Param::Register(6)),
        );
        add_entry(&mut es, "RTI", OP::RTI, 0, 0, params0());
        add_entry(&mut es, "ST", OP::ST, 0, 0, params2(Param::Register(9), Param::Label));
        add_entry(&mut es, "STI", OP::STI, 0, 0, params2(Param::Register(9), Param::Label));
        add_entry(
            &mut es,
            "STR",
            OP::STR,
            0,
            0,
            params3(Param::Register(9), Param::Register(6), Param::Bits(6)),
        );
        add_entry(&mut es, "IN", OP::TRAP, 0x23, 0, params0());
        add_entry(&mut es, "OUT", OP::TRAP, 0x21, 0, params0());
        add_entry(&mut es, "PUTS", OP::TRAP, 0x22, 0, params0());
        add_entry(&mut es, "HALT", OP::TRAP, 0x25, 0, params0());
        add_entry(&mut es, "GETC", OP::TRAP, 0x20, 0, params0());
        add_entry(&mut es, "TRAP", OP::TRAP, 0, 0, params1(Param::Bits(8)));
        add_entry(&mut es, "PUSH!", OP::RES, 0, 0x0800, params1(Param::Register(6)));
        add_entry(&mut es, "POP!", OP::RES, 0x0800, 0, params1(Param::Register(6)));
        add_entry(&mut es, "SP++", OP::ADD, 0b0000_110_110_1_00001, 0b0000_000_000_0_11110, params0());
        add_entry(&mut es, "SP--", OP::ADD, 0b0000_110_110_1_11111, 0, params0());
        add_entry(
            &mut es,
            "COPY!",
            OP::ADD,
            0b0000_000_000_1_00000,
            0b0000_000_000_0_11111,
            params2(Param::Register(9), Param::Register(6)),
        );
        add_entry(
            &mut es,
            "ZERO!",
            OP::AND,
            0b1_00000,
            0,
            params1(Param::RegisterMultiMapped(9, 6)),
        );
        add_entry(
            &mut es,
            "SET_COND!",
            OP::ADD,
            0b1_00000,
            0b11111,
            params1(Param::RegisterMultiMapped(9, 6)),
        );
        proof {
            assert(table_model(es@) =~= canonical_table());
        }
        InstructionSet { entries: es }
    }

    /// The index of the definition a mnemonic selects, compared without
    /// case.
    pub fn find(&self, name: &str) -> (r: Option<usize>)
        ensures
            match r {
                Some(k) => lookup_idx(table_model(self.entries@), name@, 0) == Some(k as int) && k
                    < self.entries@.len(),
                None => lookup_idx(table_model(self.entries@), name@, 0) is None,
            },
    {
        let ghost tm = table_model(self.entries@);
        let mut k: usize = 0;
        while k < self.entries.len()
            invariant
                k <= self.entries@.len(),
                tm == table_model(self.entries@),
                lookup_idx(tm, name@, 0) == lookup_idx(tm, name@, k as nat),
            decreases self.entries@.len() - k,
        {
            proof {
                assert(tm[k as int].mnemonic == self.entries@[k as int].0@);
            }
            if str_eq_ci(name, self.entries[k].0.as_str()) {
                return Some(k);
            }
            proof {
                assert(lookup_idx(tm, name@, k as nat) == lookup_idx(tm, name@, (k + 1) as nat));
            }
            k += 1;
        }
        None
    }
}


// ---------------------------------------------------------------------------
// Operand validation and instruction encoding
// ---------------------------------------------------------------------------

/// Whether a token can stand as an operand of the given shape, with the
/// signed or unsigned range each shape admits.
pub open spec fn valid_arg(t: TokenModel, p: Param) -> bool {
    match p {
        Param::Label => t is Label,
        Param::Register(pos) => t is Register,
        Param::RegisterMultiMapped(p1, p2) => t is Register,
        Param::Bits(n) => (t is DecimalLiteral || t is HexLiteral || t is BinLiteral) && ({
            let l = num_lit_of(t).unwrap();
            if l.sign == Sign::MINUS {
                l.value as u32 <= (1u32 << ((n - 1) as u16))
            } else {
                l.value as u32 <= (1u32 << n) - 1
            }
        }),
        Param::RegisterORImm5 => t is Register || ((t is DecimalLiteral || t is HexLiteral || t
            is BinLiteral) && ({
            let l = num_lit_of(t).unwrap();
            if l.sign == Sign::MINUS {
                l.value <= 16
            } else {
                l.value <= 15
            }
        })),
    }
}

impl Token {
    /// Whether this token can stand as an operand of the given shape.
    pub fn is_valid_arg(&self, param: &Param) -> (r: bool)
        requires
            param_wf(*param),
        ensures
            r == valid_arg(self@, *param),
    {
        match param {
            Param::Label => matches!(self, Token::Label(_)),
            Param::Register(_) => matches!(self, Token::Register(_)),
            Param::RegisterMultiMapped(_, _) => matches!(self, Token::Register(_)),
            Param::Bits(n) => {
                match self {
                    Token::DecimalLiteral(l) | Token::HexLiteral(l) | Token::BinLiteral(l) => {
                        if matches!(l.sign, Sign::MINUS) {
                            l.value as u32 <= (1u32 << (n - 1))
                        } else {
                            proof {
                                lemma_shl1_pos(*n);
                            }
                            l.value as u32 <= (1u32 << n) - 1
                        }
                    },
                    _ => false,
                }
            },
            Param::RegisterORImm5 => {
                match self {
                    Token::Register(_) => true,
                    Token::DecimalLiteral(l) | Token::HexLiteral(l) | Token::BinLiteral(l) => {
                        if matches!(l.sign, Sign::MINUS) {
                            l.value <= 16
                        } else {
                            l.value <= 15
                        }
                    },
                    _ => false,
                }
            },
        }
    }
}

/// Whether the two names agree, without regard to case when `ci` holds.
pub open spec fn sym_name_matches(a: Seq<char>, b: Seq<char>, ci: bool) -> bool {
    if ci {
        seq_eq_ci(a, b)
    } else {
        a == b
    }
}

/// The symbol a label refers to: the latest table entry carrying that name.
pub open spec fn find_symbol(syms: Seq<SymbolModel>, name: Seq<char>, ci: bool) -> Option<
    SymbolModel,
>
    decreases syms.len(),
{
    if syms.len() == 0 {
        None
    } else if sym_name_matches(syms.last().name, name, ci) {
        Some(syms.last())
    } else {
        find_symbol(syms.drop_last(), name, ci)
    }
}

/// Finds the symbol a label refers to, searching from the latest entry.
fn find_symbol_exec(syms: &Vec<Symbol>, name: &str, ci: bool) -> (r: Option<usize>)
    ensures
        match r {
            Some(k) => k < syms@.len() && find_symbol(symbols_model(syms@), name@, ci) == Some(
                syms@[k as int]@,
            ),
            None => find_symbol(symbols_model(syms@), name@, ci) is None,
        },
{
    let ghost model = symbols_model(syms@);
    proof {
        assert(model.take(syms@.len() as int) =~= model);
    }
    let mut k = syms.len();
    while k > 0
        invariant
            k <= syms@.len(),
            model == symbols_model(syms@),
            find_symbol(model, name@, ci) == find_symbol(model.take(k as int), name@, ci),
        decreases k,
    {
        k -= 1;
        let matched = if ci {
            str_eq_ci(syms[k].name.as_str(), name)
        } else {
            str_eq(syms[k].name.as_str(), name)
        };
        proof {
            assert(model.take((k + 1) as int).last() == model[k as int]);
            assert(model.take((k + 1) as int).drop_last() =~= model.take(k as int));
            assert(model[k as int].name == syms@[k as int]@.name);
        }
        if matched {
            proof {
                assert(sym_name_matches(model.take((k + 1) as int).last().name, name@, ci));
            }
            return Some(k);
        }
    }
    proof {
        assert(model.take(0) =~= Seq::<SymbolModel>::empty());
    }
    None
}

/// A word holds a signed value in `w` bits exactly when the value lies in
/// `-2^(w-1) .. 2^(w-1) - 1`.
pub open spec fn fits_signed(off: u16, w: u16) -> bool {
    -((1u32 << ((w - 1) as u16)) as int) <= to_signed(off) < (1u32 << ((w - 1) as u16)) as int
}

/// One operand merged into the word under construction.  A label operand
/// resolves to a PC-relative offset against the incremented address and is
/// range checked; an unresolvable label or an offset out of range is an
/// error.
pub open spec fn encode_operand(
    word: u16,
    p: Param,
    t: TokenModel,
    opcode: u16,
    rel_addr: u16,
    syms: Seq<SymbolModel>,
    ci: bool,
) -> Result<u16, ()> {
    match p {
        Param::Register(pos) => match t {
            TokenModel::Register(r) => Ok(word | (r << pos)),
            _ => Err(()),
        },
        Param::RegisterMultiMapped(p1, p2) => match t {
            TokenModel::Register(r) => Ok(word | (r << p1) | (r << p2)),
            _ => Err(()),
        },
        Param::RegisterORImm5 => match t {
            TokenModel::Register(r) => Ok(word | r),
            TokenModel::DecimalLiteral(l) | TokenModel::HexLiteral(l) | TokenModel::BinLiteral(
                l,
            ) => {
                let v = if l.sign == Sign::MINUS {
                    neg16(l.value) & low_mask(5)
                } else {
                    l.value
                };
                Ok(word | v | 0x20)
            },
            _ => Err(()),
        },
        Param::Bits(n) => match t {
            TokenModel::DecimalLiteral(l) | TokenModel::HexLiteral(l) | TokenModel::BinLiteral(
                l,
            ) => {
                let v = if l.sign == Sign::MINUS {
                    neg16(l.value) & low_mask(n)
                } else {
                    l.value
                };
                Ok(word | v)
            },
            _ => Err(()),
        },
        Param::Label => match t {
            TokenModel::Label(name) => match find_symbol(syms, name, ci) {
                None => Err(()),
                Some(sym) => {
                    let off = wrap_add(sym.rel_addr, neg16(wrap_add(rel_addr, 1)));
                    let w: u16 = if opcode == 0x4000 {
                        11
                    } else {
                        9
                    };
                    if fits_signed(off, w) {
                        Ok(word | (off & low_mask(w)))
                    } else {
                        Err(())
                    }
                },
            },
            _ => Err(()),
        },
    }
}


/// The walk over one line's operand tokens: odd positions carry operands,
/// even positions carry the separating commas.  Each operand is validated
/// against the schema and merged into the word.
pub open spec fn encode_walk(
    tokens: Seq<TokenModel>,
    params: Seq<Param>,
    i: nat,
    word: u16,
    argc: nat,
    opcode: u16,
    rel_addr: u16,
    syms: Seq<SymbolModel>,
    ci: bool,
) -> Result<(u16, nat), ()>
    decreases tokens.len() - i,
{
    if i >= tokens.len() {
        Ok((word, argc))
    } else if argc == params.len() {
        Err(())
    } else if i % 2 == 0 && !(tokens[i as int] is Comma) {
        Err(())
    } else if tokens[i as int] is Comma {
        encode_walk(tokens, params, i + 1, word, argc, opcode, rel_addr, syms, ci)
    } else if !valid_arg(tokens[i as int], params[argc as int]) {
        Err(())
    } else {
        match encode_operand(word, params[argc as int], tokens[i as int], opcode, rel_addr, syms, ci) {
            Err(e) => Err(()),
            Ok(w2) => encode_walk(tokens, params, i + 1, w2, argc + 1, opcode, rel_addr, syms, ci),
        }
    }
}

/// What encoding one line yields: no instruction on the line, an error, or
/// one encoded word.
pub enum EncodeOutcome {
    NotInstr,
    EncFail,
    EncOk(u16),
}

/// The encoded word of one line whose leading label and annotation
/// directive are already stripped: the mnemonic selects a definition, the
/// word starts from the opcode and required bits, and the operand walk
/// fills the fields.
pub open spec fn spec_encode_line(
    table: Seq<TableEntryModel>,
    tokens: Seq<TokenModel>,
    rel_addr: u16,
    syms: Seq<SymbolModel>,
    ci: bool,
) -> EncodeOutcome {
    if tokens.len() == 0 || !(tokens[0] is Instruction) {
        EncodeOutcome::NotInstr
    } else {
        let name = tokens[0]->Instruction_0;
        match lookup_idx(table, name, 0) {
            None => EncodeOutcome::EncFail,
            Some(k) => {
                let d = table[k].def;
                match encode_walk(
                    tokens,
                    d.params,
                    1,
                    d.opcode | d.flags_word,
                    0,
                    d.opcode,
                    rel_addr,
                    syms,
                    ci,
                ) {
                    Err(e) => EncodeOutcome::EncFail,
                    Ok(wa) => {
                        if wa.1 == d.params.len() {
                            EncodeOutcome::EncOk(wa.0)
                        } else {
                            EncodeOutcome::EncFail
                        }
                    },
                }
            },
        }
    }
}

/// How many leading tokens of a line stand before its instruction: one
/// leading label, then one annotation directive, are skipped.
pub open spec fn strip_count(tokens: Seq<TokenModel>) -> nat {
    let a: nat = if tokens.len() > 0 && tokens[0] is Label {
        1
    } else {
        0
    };
    if tokens.len() > a && tokens[a as int] is Directive {
        a + 1
    } else {
        a
    }
}

/// The outcome of encoding one full line, label and annotation directive
/// included.
pub open spec fn spec_encode_full_line(
    table: Seq<TableEntryModel>,
    line: TokenizedLineModel,
    syms: Seq<SymbolModel>,
    ci: bool,
) -> EncodeOutcome {
    spec_encode_line(table, line.tokens.skip(strip_count(line.tokens) as int), line.rel_addr, syms, ci)
}

/// The instruction words of a line sequence, each at its line's relative
/// address; an error on any line fails the whole pass.
pub open spec fn spec_parse_instructions(
    table: Seq<TableEntryModel>,
    lines: Seq<TokenizedLineModel>,
    syms: Seq<SymbolModel>,
    ci: bool,
) -> Result<Seq<MemoryWrite>, ()>
    decreases lines.len(),
{
    if lines.len() == 0 {
        Ok(Seq::empty())
    } else {
        let rest = spec_parse_instructions(table, lines.skip(1), syms, ci);
        match spec_encode_full_line(table, lines[0], syms, ci) {
            EncodeOutcome::EncFail => Err(()),
            EncodeOutcome::NotInstr => rest,
            EncodeOutcome::EncOk(w) => match rest {
                Err(e) => Err(()),
                Ok(rs) => Ok(seq![MemoryWrite { rel_addr: lines[0].rel_addr, value: w }] + rs),
            },
        }
    }
}

/// The source line numbers of the lines whose instruction fails to encode,
/// in order.
pub open spec fn spec_encode_failures(
    table: Seq<TableEntryModel>,
    lines: Seq<TokenizedLineModel>,
    syms: Seq<SymbolModel>,
    ci: bool,
) -> Seq<u16>
    decreases lines.len(),
{
    if lines.len() == 0 {
        Seq::empty()
    } else {
        let rest = spec_encode_failures(table, lines.skip(1), syms, ci);
        match spec_encode_full_line(table, lines[0], syms, ci) {
            EncodeOutcome::EncFail => seq![lines[0].src_ln_number] + rest,
            _ => rest,
        }
    }
}

// ---------------------------------------------------------------------------
// The assembler
// ---------------------------------------------------------------------------

/// The two-pass assembler: source lines, their tokens, the symbol table,
/// the instruction-set table, and the origin and end addresses found.
pub struct Assembler {
    pub file_path: String,
    pub raw_lines: Vec<String>,
    pub processed_lines: Vec<SourceLine>,
    pub tokenized_lines: Vec<TokenizedLine>,
    pub symbol_table: SymbolTable,
    pub instruction_set: InstructionSet,
    pub case_insensitive_labels: bool,
    pub verbose_log: bool,
    pub orig: u16,
    pub end: u16,
}

impl Assembler {
    /// A fresh assembler for the named source file, with the canonical
    /// instruction-set table and case-insensitive labels.
    pub fn new(path: &str) -> (r: Self)
        ensures
            r.file_path@ == path@,
            r.raw_lines@.len() == 0,
            r.processed_lines@.len() == 0,
            r.tokenized_lines@.len() == 0,
            r.symbol_table@.len() == 0,
            table_wf(r.instruction_set.entries@),
            table_model(r.instruction_set.entries@) == canonical_table(),
            r.case_insensitive_labels,
            !r.verbose_log,
            r.orig == 0,
            r.end == 0,
    {
        Assembler {
            file_path: path.to_owned(),
            raw_lines: Vec::new(),
            processed_lines: Vec::new(),
            tokenized_lines: Vec::new(),
            symbol_table: Vec::new(),
            instruction_set: InstructionSet::define_instruction_set(),
            case_insensitive_labels: true,
            verbose_log: false,
            orig: 0,
            end: 0,
        }
    }

    /// Chooses whether label names are compared without regard to case.
    pub fn ignore_case_for_labels(&mut self, flag: bool)
        ensures
            *final(self) == (Assembler { case_insensitive_labels: flag, ..*old(self) }),
    {
        self.case_insensitive_labels = flag;
    }

    /// Encodes the instruction of one line, whose tokens begin at `start`
    /// after any leading label and annotation directive.  A line without an
    /// instruction encodes to nothing.
    fn parse_single_instr(&self, tokens: &Vec<Token>, start: usize, rel_addr: u16) -> (r: Result<
        Option<u16>,
        String,
    >)
        requires
            table_wf(self.instruction_set.entries@),
            start <= tokens@.len(),
        ensures
            match spec_encode_line(
                table_model(self.instruction_set.entries@),
                tokens_model(tokens@).skip(start as int),
                rel_addr,
                symbols_model(self.symbol_table@),
                self.case_insensitive_labels,
            ) {
                EncodeOutcome::NotInstr => r == Result::<Option<u16>, String>::Ok(None),
                EncodeOutcome::EncFail => r is Err,
                EncodeOutcome::EncOk(w) => r == Result::<Option<u16>, String>::Ok(Some(w)),
            },
    {
        let ghost toks = tokens_model(tokens@).skip(start as int);
        let n = tokens.len();
        if n == start {
            return Ok(None);
        }
        proof {
            assert(toks[0] == tokens@[start as int]@);
        }
        let name = match &tokens[start] {
            Token::Instruction(nm) => nm,
            _ => {
                proof {
                    assert(!(toks[0] is Instruction));
                }
                return Ok(None);
            },
        };
        proof {
            assert(toks[0] == TokenModel::Instruction(name@));
        }
        let k = match self.instruction_set.find(name.as_str()) {
            Some(k) => k,
            None => {
                return Err("unknown instruction".to_owned());
            },
        };
        let d = &self.instruction_set.entries[k].1;
        let ghost dspec = table_model(self.instruction_set.entries@)[k as int].def;
        let np = d.params.len();
        let mut word: u16 = d.opcode | d.flags_word;
        let mut argc: usize = 0;
        let mut i: usize = start + 1;
        proof {
            assert(table_wf(self.instruction_set.entries@));
            assert(dspec == def_model(self.instruction_set.entries@[k as int].1));
            assert(def_wf(self.instruction_set.entries@[k as int].1));
        }
        let ghost walk0 = encode_walk(
            toks,
            dspec.params,
            1,
            dspec.opcode | dspec.flags_word,
            0,
            dspec.opcode,
            rel_addr,
            symbols_model(self.symbol_table@),
            self.case_insensitive_labels,
        );
        let ghost spec_out = spec_encode_line(
            table_model(self.instruction_set.entries@),
            toks,
            rel_addr,
            symbols_model(self.symbol_table@),
            self.case_insensitive_labels,
        );
        proof {
            assert(spec_out == (match walk0 {
                Result::<(u16, nat), ()>::Err(e) => EncodeOutcome::EncFail,
                Ok(wa) => if wa.1 == dspec.params.len() {
                    EncodeOutcome::EncOk(wa.0)
                } else {
                    EncodeOutcome::EncFail
                },
            }));
        }
        while i < n
            invariant
                start < i <= n,
                n == tokens@.len(),
                toks == tokens_model(tokens@).skip(start as int),
                argc <= dspec.params.len(),
                d == &self.instruction_set.entries@[k as int].1,
                dspec == def_model(self.instruction_set.entries@[k as int].1),
                def_wf(self.instruction_set.entries@[k as int].1),
                np == dspec.params.len(),
                walk0 == encode_walk(
                    toks,
                    dspec.params,
                    1,
                    dspec.opcode | dspec.flags_word,
                    0,
                    dspec.opcode,
                    rel_addr,
                    symbols_model(self.symbol_table@),
                    self.case_insensitive_labels,
                ),
                walk0 == encode_walk(
                    toks,
                    dspec.params,
                    (i - start) as nat,
                    word,
                    argc as nat,
                    dspec.opcode,
                    rel_addr,
                    symbols_model(self.symbol_table@),
                    self.case_insensitive_labels,
                ),
                spec_out == spec_encode_line(
                    table_model(self.instruction_set.entries@),
                    toks,
                    rel_addr,
                    symbols_model(self.symbol_table@),
                    self.case_insensitive_labels,
                ),
                spec_out == (match walk0 {
                    Result::<(u16, nat), ()>::Err(e) => EncodeOutcome::EncFail,
                    Ok(wa) => if wa.1 == dspec.params.len() {
                        EncodeOutcome::EncOk(wa.0)
                    } else {
                        EncodeOutcome::EncFail
                    },
                }),
            decreases n - i,
        {
            let ghost irel = (i - start) as nat;
            proof {
                assert(toks[irel as int] == tokens@[i as int]@);
            }
            if argc == np {
                return Err("too many operands".to_owned());
            }
            let is_comma = matches!(&tokens[i], Token::Comma);
            if (i - start) % 2 == 0 && !is_comma {
                return Err("expected a comma between operands".to_owned());
            }
            if is_comma {
                i += 1;
                continue;
            }
            let p = &d.params[argc];
            proof {
                assert(param_wf(dspec.params[argc as int]));
            }
            if !tokens[i].is_valid_arg(p) {
                return Err("operand does not fit the instruction".to_owned());
            }
            match self.encode_operand_exec(word, p, &tokens[i], d.opcode, rel_addr) {
                Ok(w2) => {
                    word = w2;
                },
                Err(m) => {
                    return Err(m);
                },
            }
            argc += 1;
            i += 1;
        }
        if argc != np {
            return Err("missing operands".to_owned());
        }
        Ok(Some(word))
    }

    /// One operand merged into the word under construction, per
    /// `encode_operand`.
    fn encode_operand_exec(
        &self,
        word: u16,
        p: &Param,
        t: &Token,
        opcode: u16,
        rel_addr: u16,
    ) -> (r: Result<u16, String>)
        requires
            param_wf(*p),
            valid_arg(t@, *p),
        ensures
            match encode_operand(
                word,
                *p,
                t@,
                opcode,
                rel_addr,
                symbols_model(self.symbol_table@),
                self.case_insensitive_labels,
            ) {
                Ok(w) => r == Result::<u16, String>::Ok(w),
                Err(e) => r is Err,
            },
    {
        match p {
            Param::Register(pos) => match t {
                Token::Register(rg) => Ok(word | (*rg << *pos)),
                _ => Err("expected a register operand".to_owned()),
            },
            Param::RegisterMultiMapped(p1, p2) => match t {
                Token::Register(rg) => Ok(word | (*rg << *p1) | (*rg << *p2)),
                _ => Err("expected a register operand".to_owned()),
            },
            Param::RegisterORImm5 => match t {
                Token::Register(rg) => Ok(word | *rg),
                Token::DecimalLiteral(l) | Token::HexLiteral(l) | Token::BinLiteral(l) => {
                    let v = if matches!(l.sign, Sign::MINUS) {
                        truncate_to(invert_sign(l.value), 5)
                    } else {
                        l.value
                    };
                    Ok(word | v | 0x20)
                },
                _ => Err("expected a register or a five-bit immediate".to_owned()),
            },
            Param::Bits(nb) => match t {
                Token::DecimalLiteral(l) | Token::HexLiteral(l) | Token::BinLiteral(l) => {
                    let v = if matches!(l.sign, Sign::MINUS) {
                        truncate_to(invert_sign(l.value), *nb)
                    } else {
                        l.value
                    };
                    Ok(word | v)
                },
                _ => Err("expected a number operand".to_owned()),
            },
            Param::Label => match t {
                Token::Label(nm) => {
                    match find_symbol_exec(&self.symbol_table, nm.as_str(), self.case_insensitive_labels) {
                        None => Err("undefined label".to_owned()),
                        Some(si) => {
                            let sym_rel = self.symbol_table[si].rel_addr;
                            let off = add_2s_complement(
                                sym_rel,
                                invert_sign(add_2s_complement(rel_addr, 1)),
                            );
                            let w: u16 = if opcode == 0x4000 {
                                11
                            } else {
                                9
                            };
                            let sv = crate::binary_utils::as_negative_i16(off) as i32;
                            let bound: i32 = if w == 11 {
                                1024
                            } else {
                                256
                            };
                            proof {
                                assert(1u32 << 10u16 == 1024 && 1u32 << 8u16 == 256) by (bit_vector);
                            }
                            if !(-bound <= sv && sv < bound) {
                                return Err("label offset out of range".to_owned());
                            }
                            Ok(word | truncate_to(off, w))
                        },
                    }
                },
                _ => Err("expected a label operand".to_owned()),
            },
        }
    }

    /// Encodes every instruction line, each word at its line's relative
    /// address.  Errors from all lines are collected and reported together.
    pub fn parse_instructions(&mut self) -> (r: Result<Vec<MemoryWrite>, Vec<AsmblrErr>>)
        requires
            table_wf(old(self).instruction_set.entries@),
        ensures
            *final(self) == *old(self),
            match spec_parse_instructions(
                table_model(old(self).instruction_set.entries@),
                old(self).tokenized_lines@.map_values(|l: TokenizedLine| l@),
                symbols_model(old(self).symbol_table@),
                old(self).case_insensitive_labels,
            ) {
                Ok(ws) => r matches Ok(v) && v@ == ws,
                Err(e) => r is Err,
            },
            r matches Err(es) ==> diag_lines_ok(
                es@,
                spec_encode_failures(
                    table_model(old(self).instruction_set.entries@),
                    old(self).tokenized_lines@.map_values(|l: TokenizedLine| l@),
                    symbols_model(old(self).symbol_table@),
                    old(self).case_insensitive_labels,
                ),
            ),
    {
        let ghost table = table_model(self.instruction_set.entries@);
        let ghost lines = self.tokenized_lines@.map_values(|l: TokenizedLine| l@);
        let ghost syms = symbols_model(self.symbol_table@);
        let ghost ci = self.case_insensitive_labels;
        let mut out: Vec<MemoryWrite> = Vec::new();
        let mut errors: Vec<AsmblrErr> = Vec::new();
        let ghost mut ds: Seq<u16> = Seq::empty();
        let n = self.tokenized_lines.len();
        proof {
            assert(lines.skip(0) =~= lines);
            assert(out@ + spec_parse_instructions(table, lines, syms, ci)->Ok_0
                =~= spec_parse_instructions(table, lines, syms, ci)->Ok_0);
        }
        let mut li: usize = 0;
        while li < n
            invariant
                li <= n,
                n == self.tokenized_lines@.len(),
                *self == *old(self),
                table == table_model(self.instruction_set.entries@),
                table_wf(self.instruction_set.entries@),
                lines == self.tokenized_lines@.map_values(|l: TokenizedLine| l@),
                syms == symbols_model(self.symbol_table@),
                ci == self.case_insensitive_labels,
                errors@.len() == 0 ==> spec_parse_instructions(table, lines, syms, ci) == (
                match spec_parse_instructions(table, lines.skip(li as int), syms, ci) {
                    Result::<Seq<MemoryWrite>, ()>::Err(e) => Err(e),
                    Ok(rs) => Ok(out@ + rs),
                }),
                errors@.len() > 0 ==> spec_parse_instructions(table, lines, syms, ci) is Err,
                diag_lines_ok(errors@, ds),
                spec_encode_failures(table, lines, syms, ci) == ds + spec_encode_failures(
                    table,
                    lines.skip(li as int),
                    syms,
                    ci,
                ),
            decreases n - li,
        {
            let line = &self.tokenized_lines[li];
            let ghost lm = lines[li as int];
            let toks = &line.tokens;
            let mut start: usize = 0;
            if toks.len() > 0 && matches!(&toks[0], Token::Label(_)) {
                start = 1;
            }
            if toks.len() > start && matches!(&toks[start], Token::Directive(_)) {
                start = start + 1;
            }
            proof {
                assert(lm.tokens == tokens_model(toks@));
                assert(start as nat == strip_count(lm.tokens)) by {
                    if toks@.len() > 0 {
                        assert(lm.tokens[0] == toks@[0]@);
                    }
                    if lm.tokens.len() > 0 && lm.tokens[0] is Label && lm.tokens.len() > 1 {
                        assert(lm.tokens[1] == toks@[1]@);
                    }
                }
                assert(lines.skip(li as int)[0] == lm);
                assert(lines.skip(li as int).skip(1) =~= lines.skip(li as int + 1));
            }
            let ghost out_pre = out@;
            let ghost err_pre = errors@.len();
            let ghost outcome = spec_encode_full_line(table, lm, syms, ci);
            let ghost rest = spec_parse_instructions(table, lines.skip(li as int + 1), syms, ci);
            proof {
                assert(spec_parse_instructions(table, lines.skip(li as int), syms, ci) == (
                match outcome {
                    EncodeOutcome::EncFail => Result::<Seq<MemoryWrite>, ()>::Err(()),
                    EncodeOutcome::NotInstr => rest,
                    EncodeOutcome::EncOk(w) => match rest {
                        Result::<Seq<MemoryWrite>, ()>::Err(e) => Err(()),
                        Ok(rs) => Ok(
                            seq![MemoryWrite { rel_addr: lm.rel_addr, value: w }] + rs,
                        ),
                    },
                }));
            }
            match self.parse_single_instr(toks, start, line.rel_addr) {
                Ok(mw) => {
                    match mw {
                        Some(wv) => {
                            out.push(MemoryWrite { rel_addr: line.rel_addr, value: wv });
                            proof {
                                if err_pre == 0 && rest is Ok {
                                    assert(out_pre + (seq![
                                        MemoryWrite { rel_addr: lm.rel_addr, value: wv },
                                    ] + rest->Ok_0) =~= out@ + rest->Ok_0);
                                }
                            }
                        },
                        None => {},
                    }
                },
                Err(msg) => {
                    errors.push(AsmblrErr::new(Some(line.src_ln_number), msg));
                    proof {
                        let frest = spec_encode_failures(table, lines.skip(li as int + 1), syms, ci);
                        assert(ds + (seq![lm.src_ln_number] + frest) =~= ds.push(lm.src_ln_number)
                            + frest);
                        ds = ds.push(lm.src_ln_number);
                    }
                },
            }
            li += 1;
        }
        proof {
            assert(lines.skip(n as int) =~= Seq::<TokenizedLineModel>::empty());
            assert(spec_encode_failures(table, lines.skip(n as int), syms, ci) =~= Seq::<u16>::empty());
            assert(ds + Seq::<u16>::empty() =~= ds);
        }
        if errors.len() > 0 {
            return Err(errors);
        }
        proof {
            assert(spec_parse_instructions(table, lines.skip(n as int), syms, ci) == Result::<
                Seq<MemoryWrite>,
                (),
            >::Ok(Seq::empty()));
            assert(out@ + Seq::<MemoryWrite>::empty() =~= out@);
        }
        Ok(out)
    }
}


// ---------------------------------------------------------------------------
// Source loading and tokenizing passes
// ---------------------------------------------------------------------------

/// The texts of a line list.
pub open spec fn strings_model(ss: Seq<String>) -> Seq<Seq<char>> {
    ss.map_values(|s: String| s@)
}

/// The models of processed source lines.
pub open spec fn source_lines_model(ls: Seq<SourceLine>) -> Seq<SourceLineModel> {
    ls.map_values(|l: SourceLine| l@)
}

/// The models of tokenized lines.
pub open spec fn tokenized_lines_model(ls: Seq<TokenizedLine>) -> Seq<TokenizedLineModel> {
    ls.map_values(|l: TokenizedLine| l@)
}

/// Comment stripping over a whole file: a leading block of comment-only
/// lines is skipped without consuming numbering; afterwards every line
/// keeps its text up to the comment, and every line left non-empty gets
/// the next relative number.  `kept` counts the lines already numbered and
/// `seen` records whether the leading comment block has ended.
pub open spec fn spec_omit_comments(rls: Seq<Seq<char>>, i: nat, kept: u16, seen: bool) -> Seq<
    SourceLineModel,
>
    decreases rls.len() - i,
{
    if i >= rls.len() {
        Seq::empty()
    } else {
        let sline = rls[i as int];
        if !seen && spec_is_comment_line(sline) {
            spec_omit_comments(rls, i + 1, kept, false)
        } else {
            let t = spec_strip_comment(sline);
            if t.len() == 0 {
                spec_omit_comments(rls, i + 1, kept, true)
            } else {
                seq![
                    SourceLineModel { text: t, number: kept, actual_line: ((i + 1) % 0x10000) as u16 },
                ] + spec_omit_comments(rls, i + 1, ((kept + 1) % 0x10000) as u16, true)
            }
        }
    }
}

impl Assembler {
    /// Strips comments from the raw lines: the leading comment block is
    /// skipped entirely, in-line comments are cut, and empty results are
    /// dropped.
    pub fn omit_comments(&self) -> (r: Vec<SourceLine>)
        ensures
            source_lines_model(r@) == spec_omit_comments(strings_model(self.raw_lines@), 0, 0, false),
    {
        let ghost rls = strings_model(self.raw_lines@);
        let mut out: Vec<SourceLine> = Vec::new();
        let mut seen: bool = false;
        let mut kept: u16 = 0;
        let mut i: usize = 0;
        let n = self.raw_lines.len();
        proof {
            assert(source_lines_model(out@) + spec_omit_comments(rls, 0, 0, false)
                =~= spec_omit_comments(rls, 0, 0, false));
        }
        while i < n
            invariant
                i <= n,
                n == self.raw_lines@.len(),
                rls == strings_model(self.raw_lines@),
                spec_omit_comments(rls, 0, 0, false) == source_lines_model(out@)
                    + spec_omit_comments(rls, i as nat, kept, seen),
            decreases n - i,
        {
            let ghost pre = out@;
            let line = &self.raw_lines[i];
            proof {
                assert(rls[i as int] == line@);
            }
            if !seen && crate::tokenizer::is_comment_line_exec(line.as_str()) {
            } else {
                seen = true;
                let t = crate::tokenizer::strip_comment_exec(line.as_str());
                if t.unicode_len() == 0 {
                } else {
                    let nline = SourceLine {
                        text: t,
                        number: kept,
                        actual_line: ((i + 1) % 0x10000) as u16,
                    };
                    out.push(nline);
                    kept = ((kept as usize + 1) % 0x10000) as u16;
                    proof {
                        assert(source_lines_model(out@) =~= source_lines_model(pre).push(
                            out@.last()@,
                        ));
                        assert(forall|a: Seq<SourceLineModel>, x: SourceLineModel, b: Seq<
                            SourceLineModel,
                        >| (a.push(x) + b) =~= (a + (seq![x] + b)));
                    }
                }
            }
            i += 1;
        }
        proof {
            assert(spec_omit_comments(rls, n as nat, kept, seen) =~= Seq::<SourceLineModel>::empty());
            assert(source_lines_model(out@) + Seq::<SourceLineModel>::empty()
                =~= source_lines_model(out@));
        }
        out
    }

    /// Takes the raw source lines and strips their comments; the processed
    /// lines drive every later pass.
    pub fn load_lines(&mut self, raw_lines: Vec<String>)
        ensures
            final(self).raw_lines@ == raw_lines@,
            source_lines_model(final(self).processed_lines@) == spec_omit_comments(
                strings_model(raw_lines@),
                0,
                0,
                false,
            ),
            *final(self) == (Assembler {
                raw_lines: final(self).raw_lines,
                processed_lines: final(self).processed_lines,
                ..*old(self)
            }),
    {
        self.raw_lines = raw_lines;
        self.processed_lines = self.omit_comments();
    }
}

/// Tokenizing every processed line: each yields its token sequence at the
/// line's provisional number, or the whole pass fails.
pub open spec fn spec_tokenize_lines(pls: Seq<SourceLineModel>) -> Result<
    Seq<TokenizedLineModel>,
    (),
>
    decreases pls.len(),
{
    if pls.len() == 0 {
        Ok(Seq::empty())
    } else {
        let rest = spec_tokenize_lines(pls.skip(1));
        match lex_line_spec(pls[0].text) {
            None => Err(()),
            Some(ts) => match rest {
                Err(e) => Err(()),
                Ok(rs) => Ok(
                    seq![
                        TokenizedLineModel {
                            rel_addr: pls[0].number,
                            src_ln_number: pls[0].actual_line,
                            tokens: ts,
                        },
                    ] + rs,
                ),
            },
        }
    }
}

/// The source line numbers of the lines that fail to tokenize, in order.
pub open spec fn spec_lex_failures(pls: Seq<SourceLineModel>) -> Seq<u16>
    decreases pls.len(),
{
    if pls.len() == 0 {
        Seq::empty()
    } else {
        let rest = spec_lex_failures(pls.skip(1));
        match lex_line_spec(pls[0].text) {
            None => seq![pls[0].actual_line] + rest,
            Some(ts) => rest,
        }
    }
}

impl Assembler {
    /// Tokenizes every processed line.  On success the tokenized lines are
    /// stored; on any syntax error the diagnostics — one per failing line,
    /// carrying that line's number — are returned together and the stored
    /// lines stay unchanged.
    pub fn tokenize(&mut self) -> (r: Result<(), Vec<AsmblrErr>>)
        ensures
            match spec_tokenize_lines(source_lines_model(old(self).processed_lines@)) {
                Ok(ts) => r is Ok && tokenized_lines_model(final(self).tokenized_lines@) == ts,
                Err(e) => r is Err && final(self).tokenized_lines@ == old(self).tokenized_lines@,
            },
            r matches Err(es) ==> diag_lines_ok(
                es@,
                spec_lex_failures(source_lines_model(old(self).processed_lines@)),
            ),
            *final(self) == (Assembler {
                tokenized_lines: final(self).tokenized_lines,
                ..*old(self)
            }),
    {
        let ghost pls = source_lines_model(self.processed_lines@);
        let mut out: Vec<TokenizedLine> = Vec::new();
        let mut errors: Vec<AsmblrErr> = Vec::new();
        let ghost mut ds: Seq<u16> = Seq::empty();
        let n = self.processed_lines.len();
        proof {
            assert(pls.skip(0) =~= pls);
        }
        let mut i: usize = 0;
        while i < n
            invariant
                i <= n,
                n == self.processed_lines@.len(),
                pls == source_lines_model(self.processed_lines@),
                *self == *old(self),
                errors@.len() == 0 ==> spec_tokenize_lines(pls) == (match spec_tokenize_lines(
                    pls.skip(i as int),
                ) {
                    Result::<Seq<TokenizedLineModel>, ()>::Err(e) => Err(e),
                    Ok(rs) => Ok(tokenized_lines_model(out@) + rs),
                }),
                errors@.len() > 0 ==> spec_tokenize_lines(pls) is Err,
                diag_lines_ok(errors@, ds),
                spec_lex_failures(pls) == ds + spec_lex_failures(pls.skip(i as int)),
            decreases n - i,
        {
            let ghost out_pre = out@;
            let ghost err_pre = errors@.len();
            let line = &self.processed_lines[i];
            proof {
                assert(pls[i as int] == line@);
                assert(pls.skip(i as int)[0] == pls[i as int]);
                assert(pls.skip(i as int).skip(1) =~= pls.skip(i as int + 1));
            }
            match Token::tokenize_line(line) {
                Ok(ts) => {
                    let tl = TokenizedLine {
                        rel_addr: line.number,
                        src_ln_number: line.actual_line,
                        tokens: ts,
                    };
                    out.push(tl);
                    proof {
                        let rest = spec_tokenize_lines(pls.skip(i as int + 1));
                        if err_pre == 0 && rest is Ok {
                            assert(tokenized_lines_model(out@) =~= tokenized_lines_model(
                                out_pre,
                            ).push(out@.last()@));
                            assert(tokenized_lines_model(out_pre) + (seq![out@.last()@]
                                + rest->Ok_0) =~= tokenized_lines_model(out@) + rest->Ok_0);
                        }
                    }
                },
                Err(msg) => {
                    errors.push(AsmblrErr::new(Some(line.actual_line), msg));
                    proof {
                        let rest = spec_lex_failures(pls.skip(i as int + 1));
                        assert(ds + (seq![pls[i as int].actual_line] + rest) =~= ds.push(
                            pls[i as int].actual_line,
                        ) + rest);
                        ds = ds.push(pls[i as int].actual_line);
                    }
                },
            }
            i += 1;
        }
        proof {
            assert(spec_lex_failures(pls.skip(n as int)) =~= Seq::<u16>::empty());
            assert(ds + Seq::<u16>::empty() =~= ds);
        }
        if errors.len() > 0 {
            return Err(errors);
        }
        proof {
            assert(spec_tokenize_lines(pls.skip(n as int)) == Result::<
                Seq<TokenizedLineModel>,
                (),
            >::Ok(Seq::empty()));
            assert(tokenized_lines_model(out@) + Seq::<TokenizedLineModel>::empty()
                =~= tokenized_lines_model(out@));
        }
        self.tokenized_lines = out;
        Ok(())
    }
}


// ---------------------------------------------------------------------------
// Origin and end scan
// ---------------------------------------------------------------------------

/// The state of the scan for the `.ORIG` and `.END` directives.
pub struct OriginScan {
    pub found_orig: bool,
    pub expecting: bool,
    pub found_end: bool,
    pub orig: u16,
    pub end: u16,
    pub err: bool,
}

/// One token of the scan: a directive other than `.ORIG` before the origin
/// is an error; `.END` records the line's address; `.ORIG` expects a
/// non-negative numeric operand next; a stray literal or a missing operand
/// is an error.
pub open spec fn origin_scan_token(st: OriginScan, t: TokenModel, line_rel: u16) -> OriginScan {
    match t {
        TokenModel::Directive(d) => {
            if d == "ORIG"@ {
                if st.found_orig {
                    OriginScan { err: true, ..st }
                } else {
                    OriginScan { expecting: true, ..st }
                }
            } else if !st.found_orig {
                OriginScan { err: true, ..st }
            } else if d == "END"@ {
                OriginScan {
                    err: st.err || st.found_end,
                    end: wrap_add(line_rel, st.orig),
                    found_end: true,
                    ..st
                }
            } else {
                st
            }
        },
        TokenModel::DecimalLiteral(l) | TokenModel::HexLiteral(l) | TokenModel::BinLiteral(l) => {
            if !st.expecting && !st.found_orig {
                OriginScan { err: true, ..st }
            } else if !st.found_orig {
                OriginScan {
                    err: st.err || l.sign == Sign::MINUS,
                    orig: l.value,
                    found_orig: true,
                    expecting: false,
                    ..st
                }
            } else {
                st
            }
        },
        _ => {
            if st.expecting {
                OriginScan { err: true, ..st }
            } else {
                st
            }
        },
    }
}

/// The scan over one line's tokens; a pending `.ORIG` operand does not
/// carry over to the next line.
pub open spec fn origin_scan_tokens(
    st: OriginScan,
    toks: Seq<TokenModel>,
    j: nat,
    line_rel: u16,
) -> OriginScan
    decreases toks.len() - j,
{
    if j >= toks.len() {
        OriginScan { expecting: false, ..st }
    } else {
        origin_scan_tokens(origin_scan_token(st, toks[j as int], line_rel), toks, j + 1, line_rel)
    }
}

/// The scan over all lines.
pub open spec fn origin_scan_lines(
    st: OriginScan,
    lines: Seq<TokenizedLineModel>,
    i: nat,
) -> OriginScan
    decreases lines.len() - i,
{
    if i >= lines.len() {
        st
    } else {
        origin_scan_lines(
            origin_scan_tokens(st, lines[i as int].tokens, 0, lines[i as int].rel_addr),
            lines,
            i + 1,
        )
    }
}

/// The initial scan state.
pub open spec fn origin_scan_init() -> OriginScan {
    OriginScan { found_orig: false, expecting: false, found_end: false, orig: 0, end: 0, err: false }
}

/// The whole scan: a missing `.ORIG` or `.END` is an error.
pub open spec fn spec_origin_scan(lines: Seq<TokenizedLineModel>) -> OriginScan {
    let st = origin_scan_lines(origin_scan_init(), lines, 0);
    OriginScan { err: st.err || !st.found_orig || !st.found_end, ..st }
}

impl Assembler {
    /// Finds the program's origin and end: `.ORIG` must occur exactly once
    /// with a non-negative numeric operand, `.END` exactly once, and no
    /// other directive may come before `.ORIG`.  The addresses found are
    /// recorded even when diagnostics are returned.
    pub fn parse_origin_and_end(&mut self) -> (r: Result<(u16, u16), Vec<AsmblrErr>>)
        ensures
            ({
                let st = spec_origin_scan(tokenized_lines_model(old(self).tokenized_lines@));
                &&& final(self).orig == st.orig
                &&& final(self).end == st.end
                &&& (r matches Ok(oe) ==> !st.err && oe == (st.orig, st.end))
                &&& (r is Err ==> st.err)
            }),
            *final(self) == (Assembler { orig: final(self).orig, end: final(self).end, ..*old(self) }),
    {
        let ghost lines = tokenized_lines_model(self.tokenized_lines@);
        let mut found_orig = false;
        let mut expecting = false;
        let mut found_end = false;
        let mut orig: u16 = 0;
        let mut end: u16 = 0;
        let mut errors: Vec<AsmblrErr> = Vec::new();
        let n = self.tokenized_lines.len();
        let mut i: usize = 0;
        while i < n
            invariant
                i <= n,
                n == self.tokenized_lines@.len(),
                lines == tokenized_lines_model(self.tokenized_lines@),
                *self == *old(self),
                ({
                    let cur = OriginScan {
                        found_orig,
                        expecting,
                        found_end,
                        orig,
                        end,
                        err: errors@.len() > 0,
                    };
                    origin_scan_lines(origin_scan_init(), lines, 0) == origin_scan_lines(
                        cur,
                        lines,
                        i as nat,
                    ) && !expecting
                }),
            decreases n - i,
        {
            let line = &self.tokenized_lines[i];
            let ghost lm = lines[i as int];
            proof {
                assert(lm == self.tokenized_lines@[i as int]@);
            }
            let m = line.tokens.len();
            let mut j: usize = 0;
            while j < m
                invariant
                    j <= m,
                    m == line.tokens@.len(),
                    line == &self.tokenized_lines[i as int],
                    i < n,
                    n == self.tokenized_lines@.len(),
                    lines == tokenized_lines_model(self.tokenized_lines@),
                    lm == lines[i as int],
                    *self == *old(self),
                    ({
                        let cur = OriginScan {
                            found_orig,
                            expecting,
                            found_end,
                            orig,
                            end,
                            err: errors@.len() > 0,
                        };
                        origin_scan_lines(origin_scan_init(), lines, 0) == origin_scan_lines(
                            origin_scan_tokens(cur, lm.tokens, j as nat, lm.rel_addr),
                            lines,
                            i as nat + 1,
                        )
                    }),
                decreases m - j,
            {
                let ghost cur = OriginScan {
                    found_orig,
                    expecting,
                    found_end,
                    orig,
                    end,
                    err: errors@.len() > 0,
                };
                let tok = &line.tokens[j];
                proof {
                    assert(lm.tokens[j as int] == line.tokens@[j as int]@);
                }
                match tok {
                    Token::Directive(d) => {
                        if str_eq(d.as_str(), "ORIG") {
                            if found_orig {
                                errors.push(
                                    AsmblrErr::new(
                                        Some(line.src_ln_number),
                                        "origin is already defined".to_owned(),
                                    ),
                                );
                            } else {
                                expecting = true;
                            }
                        } else if !found_orig {
                            errors.push(
                                AsmblrErr::new(
                                    Some(line.src_ln_number),
                                    "expected the origin directive first".to_owned(),
                                ),
                            );
                        } else if str_eq(d.as_str(), "END") {
                            if found_end {
                                errors.push(
                                    AsmblrErr::new(
                                        Some(line.src_ln_number),
                                        "program end is already defined".to_owned(),
                                    ),
                                );
                            }
                            end = add_2s_complement(line.rel_addr, orig);
                            found_end = true;
                        }
                    },
                    Token::DecimalLiteral(l) | Token::HexLiteral(l) | Token::BinLiteral(l) => {
                        if !expecting && !found_orig {
                            errors.push(
                                AsmblrErr::new(
                                    Some(line.src_ln_number),
                                    "unexpected number literal".to_owned(),
                                ),
                            );
                        } else if !found_orig {
                            if matches!(l.sign, Sign::MINUS) {
                                errors.push(
                                    AsmblrErr::new(
                                        Some(line.src_ln_number),
                                        "the origin must be a non-negative value".to_owned(),
                                    ),
                                );
                            }
                            orig = l.value;
                            found_orig = true;
                            expecting = false;
                        }
                    },
                    _ => {
                        if expecting {
                            errors.push(
                                AsmblrErr::new(
                                    Some(line.src_ln_number),
                                    "the origin directive has no value".to_owned(),
                                ),
                            );
                        }
                    },
                }
                proof {
                    let nxt = OriginScan {
                        found_orig,
                        expecting,
                        found_end,
                        orig,
                        end,
                        err: errors@.len() > 0,
                    };
                    assert(nxt == origin_scan_token(cur, lm.tokens[j as int], lm.rel_addr));
                }
                j += 1;
            }
            expecting = false;
            i += 1;
        }
        self.orig = orig;
        self.end = end;
        if !found_orig {
            errors.push(AsmblrErr::new(None, "unable to find the program origin".to_owned()));
        }
        if !found_end {
            errors.push(AsmblrErr::new(None, "unable to find the program end".to_owned()));
        }
        if errors.len() > 0 {
            return Err(errors);
        }
        Ok((orig, end))
    }
}


// ---------------------------------------------------------------------------
// Layout: dropping layout-neutral lines and assigning word addresses
// ---------------------------------------------------------------------------

/// How many words a line materializes: one for an instruction or `.FILL`,
/// the text length plus the terminator for `.STRINGZ`, the block size for
/// `.BLKW`, and none for annotations, labels alone, or malformed
/// directives.  An annotated instruction still materializes its word.
pub open spec fn line_size(toks: Seq<TokenModel>) -> nat {
    let a: nat = if toks.len() > 0 && toks[0] is Label {
        1
    } else {
        0
    };
    if toks.len() <= a {
        0
    } else {
        match toks[a as int] {
            TokenModel::Instruction(nm) => 1,
            TokenModel::Directive(d) => {
                if d == "FILL"@ {
                    1
                } else if d == "STRINGZ"@ {
                    if toks.len() > a + 1 && toks[a as int + 1] is StringLiteral {
                        toks[a as int + 1]->StringLiteral_0.len() + 1
                    } else {
                        0
                    }
                } else if d == "BLKW"@ {
                    if toks.len() > a + 1 && (toks[a as int + 1] is DecimalLiteral || toks[a as int
                        + 1] is HexLiteral || toks[a as int + 1] is BinLiteral) {
                        let l = num_lit_of(toks[a as int + 1]).unwrap();
                        if l.sign == Sign::PLUS {
                            l.value as nat
                        } else {
                            0
                        }
                    } else {
                        0
                    }
                } else if d == "IMPORT"@ || d == "EXPORT"@ {
                    if toks.len() > a + 1 && toks[a as int + 1] is Instruction {
                        1
                    } else {
                        0
                    }
                } else {
                    0
                }
            },
            _ => 0,
        }
    }
}

/// Lines that never reach layout: token-empty lines and the `.ORIG` and
/// `.END` lines themselves.
pub open spec fn drop_line(toks: Seq<TokenModel>) -> bool {
    toks.len() == 0 || (toks[0] is Directive && (toks[0]->Directive_0 == "ORIG"@
        || toks[0]->Directive_0 == "END"@))
}

/// Renumbering: every kept line gets the running word address, which then
/// advances by the line's size, modulo the address space.
pub open spec fn spec_renumber(lines: Seq<TokenizedLineModel>, addr: u16) -> Seq<
    TokenizedLineModel,
>
    decreases lines.len(),
{
    if lines.len() == 0 {
        Seq::empty()
    } else {
        let l = lines[0];
        if drop_line(l.tokens) {
            spec_renumber(lines.skip(1), addr)
        } else {
            seq![
                TokenizedLineModel {
                    rel_addr: addr,
                    src_ln_number: l.src_ln_number,
                    tokens: l.tokens,
                },
            ] + spec_renumber(lines.skip(1), ((addr + line_size(l.tokens)) % 0x10000) as u16)
        }
    }
}

/// The number of words a line materializes, reduced modulo the address
/// space.
fn line_size_exec(toks: &Vec<Token>) -> (sz: usize)
    ensures
        sz as nat == line_size(tokens_model(toks@)) % 0x10000,
        sz < 0x10000,
{
    let ghost tm = tokens_model(toks@);
    let mut a: usize = 0;
    if toks.len() > 0 && matches!(&toks[0], Token::Label(_)) {
        a = 1;
    }
    proof {
        if toks@.len() > 0 {
            assert(tm[0] == toks@[0]@);
        }
    }
    if toks.len() <= a {
        return 0;
    }
    proof {
        assert(tm[a as int] == toks@[a as int]@);
        if toks@.len() > a + 1 {
            assert(tm[a as int + 1] == toks@[a as int + 1]@);
        }
    }
    match &toks[a] {
        Token::Instruction(_) => 1,
        Token::Directive(d) => {
            if str_eq(d.as_str(), "FILL") {
                1
            } else if str_eq(d.as_str(), "STRINGZ") {
                if toks.len() > a + 1 {
                    match &toks[a + 1] {
                        Token::StringLiteral(text) => {
                            let tl = text.as_str().unicode_len();
                            proof {
                                vstd::arithmetic::div_mod::lemma_add_mod_noop_right(
                                    1,
                                    tl as int,
                                    0x10000,
                                );
                            }
                            ((tl % 0x10000) + 1) % 0x10000
                        },
                        _ => 0,
                    }
                } else {
                    0
                }
            } else if str_eq(d.as_str(), "BLKW") {
                if toks.len() > a + 1 {
                    match &toks[a + 1] {
                        Token::DecimalLiteral(l) | Token::HexLiteral(l) | Token::BinLiteral(l) => {
                            if matches!(l.sign, Sign::PLUS) {
                                proof {
                                    vstd::arithmetic::div_mod::lemma_small_mod(
                                        l.value as nat,
                                        0x10000,
                                    );
                                }
                                l.value as usize
                            } else {
                                0
                            }
                        },
                        _ => 0,
                    }
                } else {
                    0
                }
            } else if str_eq(d.as_str(), "IMPORT") || str_eq(d.as_str(), "EXPORT") {
                if toks.len() > a + 1 && matches!(&toks[a + 1], Token::Instruction(_)) {
                    1
                } else {
                    0
                }
            } else {
                0
            }
        },
        _ => 0,
    }
}

impl Assembler {
    /// Drops the `.ORIG` and `.END` lines and token-empty lines, and gives
    /// every remaining line its relative word address: the count of words
    /// materialized by the lines before it.  A label standing alone thus
    /// shares its address with the next line that materializes words.
    pub fn omit_empty_lines(&mut self)
        ensures
            tokenized_lines_model(final(self).tokenized_lines@) == spec_renumber(
                tokenized_lines_model(old(self).tokenized_lines@),
                0,
            ),
            *final(self) == (Assembler {
                tokenized_lines: final(self).tokenized_lines,
                ..*old(self)
            }),
    {
        let ghost orig_model = tokenized_lines_model(self.tokenized_lines@);
        let mut old_lines: Vec<TokenizedLine> = Vec::new();
        std::mem::swap(&mut old_lines, &mut self.tokenized_lines);
        let total = old_lines.len();
        let mut rev: Vec<TokenizedLine> = Vec::new();
        while old_lines.len() > 0
            invariant
                old_lines@.len() + rev@.len() == total,
                total == orig_model.len(),
                forall|k: int| 0 <= k < old_lines@.len() ==> #[trigger] old_lines@[k]@ == orig_model[k],
                forall|k: int|
                    0 <= k < rev@.len() ==> #[trigger] rev@[k]@ == orig_model[total - 1 - k],
            decreases old_lines@.len(),
        {
            match old_lines.pop() {
                Some(l) => {
                    rev.push(l);
                },
                None => {
                    proof {
                        assert(false);
                    }
                },
            }
        }
        let mut out: Vec<TokenizedLine> = Vec::new();
        let mut addr: u16 = 0;
        let mut idx: usize = 0;
        proof {
            assert(orig_model.skip(0) =~= orig_model);
        }
        while rev.len() > 0
            invariant
                idx + rev@.len() == total,
                total == orig_model.len(),
                forall|k: int|
                    0 <= k < rev@.len() ==> #[trigger] rev@[k]@ == orig_model[total - 1 - k],
                spec_renumber(orig_model, 0) == tokenized_lines_model(out@) + spec_renumber(
                    orig_model.skip(idx as int),
                    addr,
                ),
            decreases rev@.len(),
        {
            let ghost pre = out@;
            match rev.pop() {
                None => {
                    proof {
                        assert(false);
                    }
                },
                Some(l) => {
                    proof {
                        assert(l@ == orig_model[idx as int]);
                        assert(orig_model.skip(idx as int)[0] == orig_model[idx as int]);
                        assert(orig_model.skip(idx as int).skip(1) =~= orig_model.skip(
                            idx as int + 1,
                        ));
                    }
                    let toks = &l.tokens;
                    let mut dropped = toks.len() == 0;
                    if !dropped {
                        if let Token::Directive(d) = &toks[0] {
                            proof {
                                assert(l@.tokens[0] == toks@[0]@);
                            }
                            if str_eq(d.as_str(), "ORIG") || str_eq(d.as_str(), "END") {
                                dropped = true;
                            }
                        }
                    }
                    proof {
                        if l@.tokens.len() > 0 {
                            assert(l@.tokens[0] == toks@[0]@);
                        }
                        assert(dropped == drop_line(l@.tokens));
                    }
                    if !dropped {
                        let sz = line_size_exec(&l.tokens);
                        let next_addr = (((addr as usize) + sz) % 0x10000) as u16;
                        proof {
                            vstd::arithmetic::div_mod::lemma_add_mod_noop_right(
                                addr as int,
                                line_size(l@.tokens) as int,
                                0x10000,
                            );
                        }
                        let nl = TokenizedLine {
                            rel_addr: addr,
                            src_ln_number: l.src_ln_number,
                            tokens: l.tokens,
                        };
                        out.push(nl);
                        proof {
                            assert(tokenized_lines_model(out@) =~= tokenized_lines_model(pre).push(
                                out@.last()@,
                            ));
                            let rest = spec_renumber(
                                orig_model.skip(idx as int + 1),
                                next_addr,
                            );
                            assert(tokenized_lines_model(pre) + (seq![out@.last()@] + rest)
                                =~= tokenized_lines_model(out@) + rest);
                        }
                        addr = next_addr;
                    }
                    idx += 1;
                },
            }
        }
        proof {
            assert(idx == total);
            assert(orig_model.skip(total as int) =~= Seq::<TokenizedLineModel>::empty());
            assert(tokenized_lines_model(out@) + Seq::<TokenizedLineModel>::empty()
                =~= tokenized_lines_model(out@));
        }
        self.tokenized_lines = out;
    }
}

// ---------------------------------------------------------------------------
// Symbol discovery
// ---------------------------------------------------------------------------

/// Symbol discovery over the renumbered lines: a label at the head of a
/// line defines a symbol at the line's address; a duplicate name, or an
/// unexpected token after the label, is an error.  Symbols are recorded
/// even when errors occur.
pub open spec fn spec_build_symbols(
    lines: Seq<TokenizedLineModel>,
    acc: Seq<SymbolModel>,
    diags: Seq<u16>,
    ci: bool,
    i: nat,
) -> (Seq<SymbolModel>, Seq<u16>)
    decreases lines.len() - i,
{
    if i >= lines.len() {
        (acc, diags)
    } else {
        let l = lines[i as int];
        if l.tokens.len() > 0 && l.tokens[0] is Label {
            let nm = l.tokens[0]->Label_0;
            let dup_diags: Seq<u16> = match find_symbol(acc, nm, ci) {
                Some(prior) => seq![l.src_ln_number, prior.src_ln_number],
                None => Seq::empty(),
            };
            let bad_next = l.tokens.len() > 1 && !(l.tokens[1] is Instruction || l.tokens[1]
                is Directive);
            let next_diags: Seq<u16> = if bad_next {
                seq![l.src_ln_number]
            } else {
                Seq::empty()
            };
            spec_build_symbols(
                lines,
                acc.push(
                    SymbolModel {
                        name: nm,
                        rel_addr: l.rel_addr,
                        abs_addr: 0,
                        src_ln_number: l.src_ln_number,
                        size_in_words: 1,
                        status: SymbolStatus::Private,
                    },
                ),
                diags + dup_diags + next_diags,
                ci,
                i + 1,
            )
        } else {
            spec_build_symbols(lines, acc, diags, ci, i + 1)
        }
    }
}

/// The diagnostics carry exactly the given source line numbers, in order,
/// each as a syntax diagnostic.
pub open spec fn diag_lines_ok(es: Seq<AsmblrErr>, ds: Seq<u16>) -> bool {
    es.len() == ds.len() && forall|k: int|
        0 <= k < es.len() ==> (#[trigger] es[k]).line_number == Some(ds[k]) && es[k].error_type
            == AsmErrorType::SyntaxError
}

/// A symbol search succeeds exactly when some entry carries the name.
proof fn lemma_find_symbol_exists(syms: Seq<SymbolModel>, name: Seq<char>, ci: bool)
    ensures
        (find_symbol(syms, name, ci) is Some) == exists|k: int|
            0 <= k < syms.len() && sym_name_matches(#[trigger] syms[k].name, name, ci),
    decreases syms.len(),
{
    if syms.len() > 0 {
        lemma_find_symbol_exists(syms.drop_last(), name, ci);
        assert(forall|k: int|
            0 <= k < syms.len() - 1 ==> #[trigger] syms.drop_last()[k] == syms[k]);
        if sym_name_matches(syms.last().name, name, ci) {
            assert(sym_name_matches(syms[syms.len() - 1].name, name, ci));
        } else {
            if exists|k: int|
                0 <= k < syms.len() && sym_name_matches(#[trigger] syms[k].name, name, ci) {
                let k = choose|k: int|
                    0 <= k < syms.len() && sym_name_matches(#[trigger] syms[k].name, name, ci);
                assert(k < syms.len() - 1);
                assert(sym_name_matches(syms.drop_last()[k].name, name, ci));
            }
        }
    }
}

impl Assembler {
    /// Renumbers the lines, then discovers the symbols: each leading label
    /// defines one at its line's address.  Duplicate names and unexpected
    /// tokens after a label are reported together; the table is stored
    /// either way.
    pub fn load_symbols(&mut self) -> (r: Result<(), Vec<AsmblrErr>>)
        ensures
            ({
                let lines2 = spec_renumber(tokenized_lines_model(old(self).tokenized_lines@), 0);
                let built = spec_build_symbols(
                    lines2,
                    Seq::empty(),
                    Seq::empty(),
                    old(self).case_insensitive_labels,
                    0,
                );
                &&& tokenized_lines_model(final(self).tokenized_lines@) == lines2
                &&& symbols_model(final(self).symbol_table@) == built.0
                &&& (r is Ok <==> built.1.len() == 0)
                &&& (r matches Err(es) ==> diag_lines_ok(es@, built.1))
            }),
            *final(self) == (Assembler {
                tokenized_lines: final(self).tokenized_lines,
                symbol_table: final(self).symbol_table,
                ..*old(self)
            }),
    {
        self.omit_empty_lines();
        let ghost lines2 = tokenized_lines_model(self.tokenized_lines@);
        let ghost ci = self.case_insensitive_labels;
        let mut syms: Vec<Symbol> = Vec::new();
        let mut errors: Vec<AsmblrErr> = Vec::new();
        let ghost mut ds: Seq<u16> = Seq::empty();
        let n = self.tokenized_lines.len();
        let mut i: usize = 0;
        proof {
            assert(symbols_model(syms@) =~= Seq::<SymbolModel>::empty());
        }
        while i < n
            invariant
                i <= n,
                n == self.tokenized_lines@.len(),
                lines2 == tokenized_lines_model(self.tokenized_lines@),
                ci == self.case_insensitive_labels,
                *self == (Assembler {
                    tokenized_lines: self.tokenized_lines,
                    symbol_table: self.symbol_table,
                    ..*old(self)
                }),
                spec_build_symbols(lines2, Seq::empty(), Seq::empty(), ci, 0)
                    == spec_build_symbols(lines2, symbols_model(syms@), ds, ci, i as nat),
                diag_lines_ok(errors@, ds),
            decreases n - i,
        {
            let ghost pre = symbols_model(syms@);
            let line = &self.tokenized_lines[i];
            let ghost lm = lines2[i as int];
            proof {
                assert(lm == self.tokenized_lines@[i as int]@);
            }
            if line.tokens.len() > 0 {
                proof {
                    assert(lm.tokens[0] == line.tokens@[0]@);
                    if line.tokens@.len() > 1 {
                        assert(lm.tokens[1] == line.tokens@[1]@);
                    }
                }
                if let Token::Label(nm) = &line.tokens[0] {
                    let ghost ds_pre = ds;
                    let ghost dup_diags: Seq<u16> = match find_symbol(pre, nm@, ci) {
                        Some(prior) => seq![lm.src_ln_number, prior.src_ln_number],
                        None => Seq::empty(),
                    };
                    let dup = find_symbol_exec(&syms, nm.as_str(), self.case_insensitive_labels);
                    match dup {
                        Some(prior) => {
                            let prior_line = syms[prior].src_ln_number;
                            errors.push(
                                AsmblrErr::new(
                                    Some(line.src_ln_number),
                                    "label is already defined".to_owned(),
                                ),
                            );
                            errors.push(
                                AsmblrErr::new(
                                    Some(prior_line),
                                    "the label's first definition stands here".to_owned(),
                                ),
                            );
                        },
                        None => {},
                    }
                    let bad_next = line.tokens.len() > 1 && !(matches!(
                        &line.tokens[1],
                        Token::Instruction(_),
                    ) || matches!(&line.tokens[1], Token::Directive(_)));
                    let ghost next_diags: Seq<u16> = if bad_next {
                        seq![lm.src_ln_number]
                    } else {
                        Seq::empty()
                    };
                    if bad_next {
                        errors.push(
                            AsmblrErr::new(
                                Some(line.src_ln_number),
                                "unexpected token after label declaration".to_owned(),
                            ),
                        );
                    }
                    proof {
                        ds = ds_pre + dup_diags + next_diags;
                        assert(diag_lines_ok(errors@, ds)) by {
                            assert(ds =~= ds_pre + dup_diags + next_diags);
                        }
                    }
                    let sym = Symbol {
                        name: nm.clone(),
                        rel_addr: line.rel_addr,
                        abs_addr: 0,
                        src_ln_number: line.src_ln_number,
                        size_in_words: 1,
                        status: SymbolStatus::Private,
                    };
                    syms.push(sym);
                    proof {
                        assert(symbols_model(syms@) =~= pre.push(syms@.last()@));
                    }
                }
            }
            i += 1;
        }
        self.symbol_table = syms;
        if errors.len() > 0 {
            return Err(errors);
        }
        Ok(())
    }
}


// ---------------------------------------------------------------------------
// Directive materialization
// ---------------------------------------------------------------------------

/// The machine word a number literal denotes.
pub open spec fn lit_word(l: NumberLiteral) -> u16 {
    if l.sign == Sign::MINUS {
        neg16(l.value)
    } else {
        l.value
    }
}

/// The word a character occupies in memory.
pub open spec fn char_word(c: char) -> u16 {
    (c as u32 % 0x10000) as u16
}

/// The writes of a `.STRINGZ`: one word per character from `base` on, then
/// a zero terminator.
pub open spec fn stringz_writes(base: u16, text: Seq<char>) -> Seq<(u16, u16)> {
    Seq::new(
        text.len() + 1,
        |i: int|
            (
                ((base + i) % 0x10000) as u16,
                if i < text.len() {
                    char_word(text[i])
                } else {
                    0u16
                },
            ),
    )
}

/// The writes of a `.BLKW`: `n` zero words from `base` on.
pub open spec fn blkw_writes(base: u16, n: u16) -> Seq<(u16, u16)> {
    Seq::new(n as nat, |i: int| (((base + i) % 0x10000) as u16, 0u16))
}

/// Every symbol at the given relative address takes the given size.
pub open spec fn set_sizes(syms: Seq<SymbolModel>, rel: u16, size: u16) -> Seq<SymbolModel> {
    syms.map_values(
        |s: SymbolModel|
            if s.rel_addr == rel {
                SymbolModel { size_in_words: size, ..s }
            } else {
                s
            },
    )
}

/// The first symbol at the given relative address takes the given status.
pub open spec fn set_status_first(
    syms: Seq<SymbolModel>,
    rel: u16,
    st: SymbolStatus,
    i: nat,
) -> Seq<SymbolModel>
    decreases syms.len() - i,
{
    if i >= syms.len() {
        syms
    } else if syms[i as int].rel_addr == rel {
        syms.update(i as int, SymbolModel { status: st, ..syms[i as int] })
    } else {
        set_status_first(syms, rel, st, i + 1)
    }
}

/// Materializing one line: `.FILL` emits its operand, `.STRINGZ` its
/// characters and terminator and grows its symbols, `.BLKW` its zero block
/// (growing its symbols when the block spans more than one word),
/// `.IMPORT` and `.EXPORT` mark their symbol.  A missing or ill-shaped
/// operand, a non-ASCII string, and a negative block size are errors.
pub open spec fn materialize_line(
    l: TokenizedLineModel,
    orig: u16,
    syms: Seq<SymbolModel>,
) -> (Seq<(u16, u16)>, Seq<SymbolModel>, bool) {
    let a: nat = if l.tokens.len() > 0 && l.tokens[0] is Label {
        1
    } else {
        0
    };
    if l.tokens.len() <= a {
        (Seq::empty(), syms, false)
    } else {
        match l.tokens[a as int] {
            TokenModel::Directive(d) => {
                let base = wrap_add(orig, l.rel_addr);
                let has_op = l.tokens.len() > a + 1;
                if d == "FILL"@ {
                    if has_op && (l.tokens[a as int + 1] is DecimalLiteral || l.tokens[a as int + 1]
                        is HexLiteral || l.tokens[a as int + 1] is BinLiteral) {
                        (
                            seq![(base, lit_word(num_lit_of(l.tokens[a as int + 1]).unwrap()))],
                            syms,
                            false,
                        )
                    } else {
                        (Seq::empty(), syms, true)
                    }
                } else if d == "STRINGZ"@ {
                    if has_op && l.tokens[a as int + 1] is StringLiteral {
                        let text = l.tokens[a as int + 1]->StringLiteral_0;
                        if vstd::utf8::is_ascii_chars(text) {
                            (
                                stringz_writes(base, text),
                                set_sizes(syms, l.rel_addr, ((text.len() + 1) % 0x10000) as u16),
                                false,
                            )
                        } else {
                            (Seq::empty(), syms, true)
                        }
                    } else {
                        (Seq::empty(), syms, true)
                    }
                } else if d == "BLKW"@ {
                    if has_op && (l.tokens[a as int + 1] is DecimalLiteral || l.tokens[a as int + 1]
                        is HexLiteral || l.tokens[a as int + 1] is BinLiteral) {
                        let lit = num_lit_of(l.tokens[a as int + 1]).unwrap();
                        if lit.sign == Sign::PLUS {
                            (
                                blkw_writes(base, lit.value),
                                if lit.value > 1 {
                                    set_sizes(syms, l.rel_addr, lit.value)
                                } else {
                                    syms
                                },
                                false,
                            )
                        } else {
                            (Seq::empty(), syms, true)
                        }
                    } else {
                        (Seq::empty(), syms, true)
                    }
                } else if d == "IMPORT"@ {
                    (Seq::empty(), set_status_first(syms, l.rel_addr, SymbolStatus::Import, 0), false)
                } else if d == "EXPORT"@ {
                    (Seq::empty(), set_status_first(syms, l.rel_addr, SymbolStatus::Export, 0), false)
                } else {
                    (Seq::empty(), syms, false)
                }
            },
            _ => (Seq::empty(), syms, false),
        }
    }
}

/// Materializing all lines in order, collecting writes, symbol growth and
/// errors.
pub open spec fn spec_materialize(
    lines: Seq<TokenizedLineModel>,
    i: nat,
    orig: u16,
    syms: Seq<SymbolModel>,
    writes: Seq<(u16, u16)>,
    err: bool,
) -> (Seq<(u16, u16)>, Seq<SymbolModel>, bool)
    decreases lines.len() - i,
{
    if i >= lines.len() {
        (writes, syms, err)
    } else {
        let step = materialize_line(lines[i as int], orig, syms);
        spec_materialize(lines, i + 1, orig, step.1, writes + step.0, err || step.2)
    }
}

/// Gives every symbol at `rel` the given size.
fn set_symbol_sizes(syms: &mut Vec<Symbol>, rel: u16, size: u16)
    ensures
        symbols_model(final(syms)@) == set_sizes(symbols_model(old(syms)@), rel, size),
{
    let ghost pre = symbols_model(syms@);
    let n = syms.len();
    let mut k: usize = 0;
    while k < n
        invariant
            k <= n,
            n == syms@.len(),
            symbols_model(syms@).len() == pre.len(),
            forall|j: int| 0 <= j < k ==> symbols_model(syms@)[j] == set_sizes(pre, rel, size)[j],
            forall|j: int| k <= j < n ==> symbols_model(syms@)[j] == pre[j],
        decreases n - k,
    {
        if syms[k].rel_addr == rel {
            let old_sym = syms.remove(k);
            let new_sym = Symbol { size_in_words: size, ..old_sym };
            syms.insert(k, new_sym);
        }
        k += 1;
    }
    proof {
        assert(symbols_model(syms@) =~= set_sizes(pre, rel, size));
    }
}

/// Gives the first symbol at `rel` the given status.
fn set_symbol_status_first(syms: &mut Vec<Symbol>, rel: u16, st: SymbolStatus)
    ensures
        symbols_model(final(syms)@) == set_status_first(symbols_model(old(syms)@), rel, st, 0),
{
    let ghost pre = symbols_model(syms@);
    let n = syms.len();
    let mut k: usize = 0;
    let mut found = false;
    while k < n && !found
        invariant
            k <= n,
            n == syms@.len() || (found && n == syms@.len()),
            found ==> symbols_model(syms@) == set_status_first(pre, rel, st, 0),
            !found ==> symbols_model(syms@) == pre && n == syms@.len() && set_status_first(
                pre,
                rel,
                st,
                0,
            ) == set_status_first(pre, rel, st, k as nat),
        decreases n - k + (if found { 0int } else { 1int }),
    {
        if syms[k].rel_addr == rel {
            proof {
                assert(pre[k as int] == syms@[k as int]@);
                assert(set_status_first(pre, rel, st, k as nat) == pre.update(
                    k as int,
                    SymbolModel { status: st, ..pre[k as int] },
                ));
            }
            let old_sym = syms.remove(k);
            let new_sym = Symbol { status: st, ..old_sym };
            syms.insert(k, new_sym);
            proof {
                assert(symbols_model(syms@) =~= pre.update(
                    k as int,
                    SymbolModel { status: st, ..pre[k as int] },
                ));
            }
            found = true;
        } else {
            proof {
                assert(pre[k as int] == syms@[k as int]@);
                assert(set_status_first(pre, rel, st, k as nat) == set_status_first(
                    pre,
                    rel,
                    st,
                    (k + 1) as nat,
                ));
            }
            k += 1;
        }
    }
    proof {
        if !found {
            assert(set_status_first(pre, rel, st, n as nat) == pre);
        }
    }
}

/// Appends the writes of a `.STRINGZ`: each character from `base` on,
/// then the zero terminator.
fn push_stringz_writes(writes: &mut Vec<(u16, u16)>, base: u16, text: &str)
    ensures
        final(writes)@ == old(writes)@ + stringz_writes(base, text@),
{
    let ghost wpre = writes@;
    let tn = text.unicode_len();
    let mut ci: usize = 0;
    proof {
        assert(writes@ =~= wpre + stringz_writes(base, text@).take(0));
    }
    while ci < tn
        invariant
            ci <= tn,
            tn == text@.len(),
            writes@ =~= wpre + stringz_writes(base, text@).take(ci as int),
        decreases tn - ci,
    {
        let c = text.get_char(ci);
        proof {
            vstd::arithmetic::div_mod::lemma_add_mod_noop_right(base as int, ci as int, 0x10000);
        }
        let w = ((base as usize + (ci % 0x10000)) % 0x10000) as u16;
        writes.push((w, (c as u32 % 0x10000) as u16));
        proof {
            assert(writes@ =~= wpre + stringz_writes(base, text@).take(ci as int + 1));
        }
        ci += 1;
    }
    proof {
        vstd::arithmetic::div_mod::lemma_add_mod_noop_right(base as int, tn as int, 0x10000);
    }
    let w = ((base as usize + (tn % 0x10000)) % 0x10000) as u16;
    writes.push((w, 0));
    proof {
        assert(writes@ =~= wpre + stringz_writes(base, text@));
    }
}

/// Appends the writes of a `.BLKW`: `count` zero words from `base` on.
fn push_blkw_writes(writes: &mut Vec<(u16, u16)>, base: u16, count: u16)
    ensures
        final(writes)@ == old(writes)@ + blkw_writes(base, count),
{
    let ghost wpre = writes@;
    let mut bi: usize = 0;
    proof {
        assert(writes@ =~= wpre + blkw_writes(base, count).take(0));
    }
    while bi < count as usize
        invariant
            bi <= count as usize,
            writes@ =~= wpre + blkw_writes(base, count).take(bi as int),
        decreases count as usize - bi,
    {
        let w = ((base as usize + bi) % 0x10000) as u16;
        writes.push((w, 0));
        proof {
            assert(writes@ =~= wpre + blkw_writes(base, count).take(bi as int + 1));
        }
        bi += 1;
    }
    proof {
        assert(writes@ =~= wpre + blkw_writes(base, count));
    }
}

/// Materializes one line: the writes it emits, the symbol growth and
/// status changes it makes, and whether it is in error.
#[verifier::rlimit(100)]
fn materialize_line_exec(
    line: &TokenizedLine,
    orig: u16,
    syms: &mut Vec<Symbol>,
    writes: &mut Vec<(u16, u16)>,
    errors: &mut Vec<AsmblrErr>,
)
    ensures
        ({
            let step = materialize_line(line@, orig, symbols_model(old(syms)@));
            &&& final(writes)@ == old(writes)@ + step.0
            &&& symbols_model(final(syms)@) == step.1
            &&& final(errors)@.len() >= old(errors)@.len()
            &&& ((final(errors)@.len() > old(errors)@.len()) == step.2)
        }),
{
    let ghost wpre = writes@;
    let ghost spre = symbols_model(syms@);
    let ghost step = materialize_line(line@, orig, spre);
            let toks = &line.tokens;
            let mut a: usize = 0;
            if toks.len() > 0 && matches!(&toks[0], Token::Label(_)) {
                a = 1;
            }
            proof {
                if toks@.len() > 0 {
                    assert(line@.tokens[0] == toks@[0]@);
                }
            }
            if toks.len() > a {
                proof {
                    assert(line@.tokens[a as int] == toks@[a as int]@);
                    if toks@.len() > a + 1 {
                        assert(line@.tokens[a as int + 1] == toks@[a as int + 1]@);
                    }
                }
                if let Token::Directive(d) = &toks[a] {
                    let base = add_2s_complement(orig, line.rel_addr);
                    if str_eq(d.as_str(), "FILL") {
                        let mut done = false;
                        if toks.len() > a + 1 {
                            match &toks[a + 1] {
                                Token::DecimalLiteral(l)
                                | Token::HexLiteral(l)
                                | Token::BinLiteral(l) => {
                                    let v = if matches!(l.sign, Sign::MINUS) {
                                        invert_sign(l.value)
                                    } else {
                                        l.value
                                    };
                                    writes.push((base, v));
                                    done = true;
                                },
                                _ => {},
                            }
                        }
                        if !done {
                            errors.push(
                                AsmblrErr::new(
                                    Some(line.src_ln_number),
                                    "expected a number after the fill directive".to_owned(),
                                ),
                            );
                        }
                    } else if str_eq(d.as_str(), "STRINGZ") {
                        let mut done = false;
                        if toks.len() > a + 1 {
                            if let Token::StringLiteral(text) = &toks[a + 1] {
                                if text.as_str().is_ascii() {
                                    let tn = text.as_str().unicode_len();
                                    push_stringz_writes(writes, base, text.as_str());
                                    proof {
                                        vstd::arithmetic::div_mod::lemma_add_mod_noop_right(
                                            1,
                                            tn as int,
                                            0x10000,
                                        );
                                    }
                                    let size = (((tn % 0x10000) + 1) % 0x10000) as u16;
                                    set_symbol_sizes(syms, line.rel_addr, size);
                                    done = true;
                                } else {
                                    errors.push(
                                        AsmblrErr::new(
                                            Some(line.src_ln_number),
                                            "string literal holds a non-ASCII character".to_owned(),
                                        ),
                                    );
                                    done = true;
                                }
                            }
                        }
                        if !done {
                            errors.push(
                                AsmblrErr::new(
                                    Some(line.src_ln_number),
                                    "expected a string literal after the stringz directive".to_owned(),
                                ),
                            );
                        }
                    } else if str_eq(d.as_str(), "BLKW") {
                        let mut done = false;
                        if toks.len() > a + 1 {
                            match &toks[a + 1] {
                                Token::DecimalLiteral(l)
                                | Token::HexLiteral(l)
                                | Token::BinLiteral(l) => {
                                    if matches!(l.sign, Sign::PLUS) {
                                        let count = l.value;
                                        push_blkw_writes(writes, base, count);
                                        if count > 1 {
                                            set_symbol_sizes(
                                                syms,
                                                line.rel_addr,
                                                count,
                                            );
                                        }
                                        done = true;
                                    } else {
                                        errors.push(
                                            AsmblrErr::new(
                                                Some(line.src_ln_number),
                                                "the block size must be non-negative".to_owned(),
                                            ),
                                        );
                                        done = true;
                                    }
                                },
                                _ => {},
                            }
                        }
                        if !done {
                            errors.push(
                                AsmblrErr::new(
                                    Some(line.src_ln_number),
                                    "expected a number after the block directive".to_owned(),
                                ),
                            );
                        }
                    } else if str_eq(d.as_str(), "IMPORT") {
                        set_symbol_status_first(
                            syms,
                            line.rel_addr,
                            SymbolStatus::Import,
                        );
                    } else if str_eq(d.as_str(), "EXPORT") {
                        set_symbol_status_first(
                            syms,
                            line.rel_addr,
                            SymbolStatus::Export,
                        );
                    }
                }
            }
    proof {
        assert(writes@ =~= wpre + step.0);
    }
}

impl Assembler {
    /// Materializes every data directive into absolute memory writes,
    /// growing symbol sizes for `.STRINGZ` and `.BLKW` and marking
    /// `.IMPORT` and `.EXPORT` symbols.  Diagnostics from all lines are
    /// collected; the writes of well-formed lines are still produced.
    pub fn parse_directives_to_list(&mut self) -> (r: Result<Vec<(u16, u16)>, Vec<AsmblrErr>>)
        ensures
            ({
                let m = spec_materialize(
                    tokenized_lines_model(old(self).tokenized_lines@),
                    0,
                    old(self).orig,
                    symbols_model(old(self).symbol_table@),
                    Seq::empty(),
                    false,
                );
                &&& symbols_model(final(self).symbol_table@) == m.1
                &&& (r matches Ok(ws) ==> !m.2 && ws@ == m.0)
                &&& (r is Err ==> m.2)
            }),
            *final(self) == (Assembler { symbol_table: final(self).symbol_table, ..*old(self) }),
    {
        let ghost lines = tokenized_lines_model(self.tokenized_lines@);
        let ghost orig0 = self.orig;
        let ghost syms0 = symbols_model(self.symbol_table@);
        let mut writes: Vec<(u16, u16)> = Vec::new();
        let mut errors: Vec<AsmblrErr> = Vec::new();
        let n = self.tokenized_lines.len();
        let mut i: usize = 0;
        proof {
            assert(writes@ =~= Seq::<(u16, u16)>::empty());
        }
        while i < n
            invariant
                i <= n,
                n == self.tokenized_lines@.len(),
                lines == tokenized_lines_model(self.tokenized_lines@),
                orig0 == self.orig,
                *self == (Assembler { symbol_table: self.symbol_table, ..*old(self) }),
                spec_materialize(lines, 0, orig0, syms0, Seq::empty(), false) == spec_materialize(
                    lines,
                    i as nat,
                    orig0,
                    symbols_model(self.symbol_table@),
                    writes@,
                    errors@.len() > 0,
                ),
            decreases n - i,
        {
            let ghost lm = lines[i as int];
            let line = &self.tokenized_lines[i];
            proof {
                assert(lm == self.tokenized_lines@[i as int]@);
            }
            materialize_line_exec(line, self.orig, &mut self.symbol_table, &mut writes, &mut errors);
            i += 1;
        }
        if errors.len() > 0 {
            return Err(errors);
        }
        Ok(writes)
    }
}


// ---------------------------------------------------------------------------
// Symbol layout and linking
// ---------------------------------------------------------------------------

/// Every symbol's absolute address set to origin plus relative address,
/// modulo the address space.
pub open spec fn spec_adjust_symbols(syms: Seq<SymbolModel>, orig: u16) -> Seq<SymbolModel> {
    syms.map_values(|s: SymbolModel| SymbolModel { abs_addr: wrap_add(orig, s.rel_addr), ..s })
}

/// After the adjustment every symbol satisfies `abs_addr == origin +
/// rel_addr` modulo the address space — exactly, whenever the sum stays
/// within it — and keeps its relative address and every other field.
pub proof fn lemma_adjust_symbols_abs(syms: Seq<SymbolModel>, orig: u16)
    ensures
        spec_adjust_symbols(syms, orig).len() == syms.len(),
        forall|k: int|
            0 <= k < syms.len() ==> (#[trigger] spec_adjust_symbols(syms, orig)[k]).abs_addr
                == wrap_add(orig, syms[k].rel_addr),
        forall|k: int|
            0 <= k < syms.len() ==> (#[trigger] spec_adjust_symbols(syms, orig)[k]).rel_addr
                == syms[k].rel_addr,
        forall|k: int|
            0 <= k < syms.len() && orig + syms[k].rel_addr <= 0xFFFF ==> (
            #[trigger] spec_adjust_symbols(syms, orig)[k]).abs_addr == orig + syms[k].rel_addr,
{
}

/// How many exported symbols of the external tables carry the name.
pub open spec fn count_exports(ext: Seq<SymbolModel>, name: Seq<char>) -> nat
    decreases ext.len(),
{
    if ext.len() == 0 {
        0
    } else {
        (if ext[0].status == SymbolStatus::Export && ext[0].name == name {
            1nat
        } else {
            0nat
        }) + count_exports(ext.skip(1), name)
    }
}

/// The first exported symbol of the external tables carrying the name.
pub open spec fn first_export(ext: Seq<SymbolModel>, name: Seq<char>) -> Option<SymbolModel>
    decreases ext.len(),
{
    if ext.len() == 0 {
        None
    } else if ext[0].status == SymbolStatus::Export && ext[0].name == name {
        Some(ext[0])
    } else {
        first_export(ext.skip(1), name)
    }
}

/// Import resolution: each imported symbol must match exactly one export,
/// whose absolute address it takes; its relative address becomes the
/// signed distance from this image's origin.  No match, or more than one,
/// is an error.
pub open spec fn spec_resolve(syms: Seq<SymbolModel>, ext: Seq<SymbolModel>, orig: u16) -> (
    Seq<SymbolModel>,
    bool,
) {
    (
        syms.map_values(
            |s: SymbolModel|
                if s.status == SymbolStatus::Import && count_exports(ext, s.name) == 1 {
                    let a = first_export(ext, s.name).unwrap().abs_addr;
                    SymbolModel { abs_addr: a, rel_addr: wrap_add(a, neg16(orig)), ..s }
                } else {
                    s
                },
        ),
        exists|k: int|
            0 <= k < syms.len() && (#[trigger] syms[k]).status == SymbolStatus::Import
                && count_exports(ext, syms[k].name) != 1,
    )
}

/// Counts and finds the exports carrying the name.
fn scan_exports(ext: &Vec<Symbol>, name: &str) -> (r: (usize, Option<usize>))
    ensures
        r.0 as nat == count_exports(symbols_model(ext@), name@),
        match r.1 {
            Some(k) => k < ext@.len() && first_export(symbols_model(ext@), name@) == Some(
                ext@[k as int]@,
            ),
            None => first_export(symbols_model(ext@), name@) is None,
        },
        r.0 <= ext@.len(),
{
    let ghost model = symbols_model(ext@);
    let n = ext.len();
    let mut k: usize = 0;
    let mut count: usize = 0;
    let mut first: Option<usize> = None;
    proof {
        assert(model.skip(0) =~= model);
    }
    while k < n
        invariant
            k <= n,
            n == ext@.len(),
            model == symbols_model(ext@),
            count <= k,
            count_exports(model, name@) == count + count_exports(model.skip(k as int), name@),
            match first {
                Some(f) => f < ext@.len() && first_export(model, name@) == Some(ext@[f as int]@),
                None => first_export(model, name@) == first_export(model.skip(k as int), name@),
            },
        decreases n - k,
    {
        proof {
            assert(model.skip(k as int)[0] == model[k as int]);
            assert(model.skip(k as int).skip(1) =~= model.skip(k as int + 1));
            assert(model[k as int] == ext@[k as int]@);
        }
        let is_exp = matches!(ext[k].status, SymbolStatus::Export);
        if is_exp && str_eq(ext[k].name.as_str(), name) {
            count += 1;
            if first.is_none() {
                first = Some(k);
            }
        }
        k += 1;
    }
    proof {
        assert(model.skip(n as int) =~= Seq::<SymbolModel>::empty());
    }
    (count, first)
}

impl Assembler {
    /// Sets every symbol's absolute address to the origin plus its
    /// relative address.
    pub fn adjust_symbols(&mut self)
        ensures
            symbols_model(final(self).symbol_table@) == spec_adjust_symbols(
                symbols_model(old(self).symbol_table@),
                old(self).orig,
            ),
            *final(self) == (Assembler { symbol_table: final(self).symbol_table, ..*old(self) }),
    {
        let ghost pre = symbols_model(self.symbol_table@);
        let n = self.symbol_table.len();
        let mut k: usize = 0;
        while k < n
            invariant
                k <= n,
                n == self.symbol_table@.len(),
                *self == (Assembler { symbol_table: self.symbol_table, ..*old(self) }),
                symbols_model(self.symbol_table@).len() == pre.len(),
                forall|j: int|
                    0 <= j < k ==> symbols_model(self.symbol_table@)[j] == spec_adjust_symbols(
                        pre,
                        old(self).orig,
                    )[j],
                forall|j: int| k <= j < n ==> symbols_model(self.symbol_table@)[j] == pre[j],
            decreases n - k,
        {
            let old_sym = self.symbol_table.remove(k);
            let abs = add_2s_complement(self.orig, old_sym.rel_addr);
            let new_sym = Symbol { abs_addr: abs, ..old_sym };
            self.symbol_table.insert(k, new_sym);
            k += 1;
        }
        proof {
            assert(symbols_model(self.symbol_table@) =~= spec_adjust_symbols(pre, old(self).orig));
        }
    }

    /// Resolves every imported symbol against the given external symbol
    /// tables: exactly one export must match by name; an unresolved import
    /// or a duplicate export is a link error.
    pub fn resolve_external_symbols(&mut self, external_symbols: &Vec<Symbol>) -> (r: Result<
        (),
        Vec<AsmblrErr>,
    >)
        ensures
            ({
                let res = spec_resolve(
                    symbols_model(old(self).symbol_table@),
                    symbols_model(external_symbols@),
                    old(self).orig,
                );
                &&& symbols_model(final(self).symbol_table@) == res.0
                &&& (r is Ok <==> !res.1)
            }),
            *final(self) == (Assembler { symbol_table: final(self).symbol_table, ..*old(self) }),
    {
        let ghost pre = symbols_model(self.symbol_table@);
        let ghost ext = symbols_model(external_symbols@);
        let mut errors: Vec<AsmblrErr> = Vec::new();
        let n = self.symbol_table.len();
        let mut k: usize = 0;
        while k < n
            invariant
                k <= n,
                n == self.symbol_table@.len(),
                ext == symbols_model(external_symbols@),
                *self == (Assembler { symbol_table: self.symbol_table, ..*old(self) }),
                symbols_model(self.symbol_table@).len() == pre.len(),
                forall|j: int|
                    0 <= j < k ==> symbols_model(self.symbol_table@)[j] == spec_resolve(
                        pre,
                        ext,
                        old(self).orig,
                    ).0[j],
                forall|j: int| k <= j < n ==> symbols_model(self.symbol_table@)[j] == pre[j],
                (errors@.len() > 0) == exists|j: int|
                    0 <= j < k && (#[trigger] pre[j]).status == SymbolStatus::Import
                        && count_exports(ext, pre[j].name) != 1,
            decreases n - k,
        {
            let ghost cur = symbols_model(self.symbol_table@);
            let is_import = matches!(self.symbol_table[k].status, SymbolStatus::Import);
            proof {
                assert(cur[k as int] == self.symbol_table@[k as int]@);
                assert(cur[k as int] == pre[k as int]);
            }
            if is_import {
                let (count, first) = scan_exports(external_symbols, self.symbol_table[k].name.as_str());
                if count == 1 {
                    let fi = match first {
                        Some(fi) => fi,
                        None => {
                            proof {
                                lemma_count_exports_first(ext, pre[k as int].name);
                                assert(false);
                            }
                            0
                        },
                    };
                    let a = external_symbols[fi].abs_addr;
                    let old_sym = self.symbol_table.remove(k);
                    let new_sym = Symbol {
                        abs_addr: a,
                        rel_addr: add_2s_complement(a, invert_sign(self.orig)),
                        ..old_sym
                    };
                    self.symbol_table.insert(k, new_sym);
                    proof {
                        assert(symbols_model(self.symbol_table@) =~= cur.update(
                            k as int,
                            SymbolModel {
                                abs_addr: a,
                                rel_addr: wrap_add(a, neg16(old(self).orig)),
                                ..pre[k as int]
                            },
                        ));
                        assert(a == first_export(ext, pre[k as int].name).unwrap().abs_addr);
                    }
                } else if count == 0 {
                    errors.push(
                        AsmblrErr::new(
                            None,
                            "unable to resolve import for symbol".to_owned(),
                        ).link_error(),
                    );
                } else {
                    errors.push(
                        AsmblrErr::new(
                            None,
                            "more than one export matches the imported symbol".to_owned(),
                        ).link_error(),
                    );
                }
                proof {
                    if count != 1 {
                        assert(pre[k as int].status == SymbolStatus::Import && count_exports(
                            ext,
                            pre[k as int].name,
                        ) != 1);
                    }
                }
            }
            k += 1;
        }
        proof {
            assert(symbols_model(self.symbol_table@) =~= spec_resolve(pre, ext, old(self).orig).0);
        }
        if errors.len() > 0 {
            return Err(errors);
        }
        Ok(())
    }
}

/// A name with exactly one export has a first export.
proof fn lemma_count_exports_first(ext: Seq<SymbolModel>, name: Seq<char>)
    ensures
        count_exports(ext, name) > 0 ==> first_export(ext, name) is Some,
    decreases ext.len(),
{
    if ext.len() > 0 {
        lemma_count_exports_first(ext.skip(1), name);
    }
}


// ---------------------------------------------------------------------------
// The full assembly pipeline
// ---------------------------------------------------------------------------

/// The mathematical shape of a produced image.
pub struct ImageModel {
    pub origin: u16,
    pub instructions: Seq<MemoryWrite>,
    pub data: Seq<MemoryWrite>,
    pub symbols: Seq<SymbolModel>,
}

/// The whole pipeline over the processed source lines: tokenize, find the
/// origin, renumber, discover symbols, materialize directives, lay out and
/// link symbols, and encode instructions.  Any failing phase fails the
/// pipeline.
pub open spec fn spec_assemble(
    pls: Seq<SourceLineModel>,
    ext: Seq<SymbolModel>,
    ci: bool,
    table: Seq<TableEntryModel>,
) -> Result<ImageModel, ()> {
    match spec_tokenize_lines(pls) {
        Err(e) => Err(()),
        Ok(toks0) => {
            let st = spec_origin_scan(toks0);
            let lines2 = spec_renumber(toks0, 0);
            let built = spec_build_symbols(lines2, Seq::empty(), Seq::empty(), ci, 0);
            let m = spec_materialize(lines2, 0, st.orig, built.0, Seq::empty(), false);
            let adjusted = spec_adjust_symbols(m.1, st.orig);
            let res = spec_resolve(adjusted, ext, st.orig);
            if res.1 {
                Err(())
            } else {
                match spec_parse_instructions(table, lines2, res.0, ci) {
                    Err(e) => Err(()),
                    Ok(instrs) => {
                        if st.err || built.1.len() > 0 || m.2 {
                            Err(())
                        } else {
                            Ok(
                                ImageModel {
                                    origin: st.orig,
                                    instructions: instrs,
                                    data: m.0.map_values(
                                        |wv: (u16, u16)|
                                            MemoryWrite {
                                                rel_addr: wrap_add(wv.0, neg16(st.orig)),
                                                value: wv.1,
                                            },
                                    ),
                                    symbols: res.0,
                                },
                            )
                        }
                    },
                }
            }
        },
    }
}

impl Assembler {
    /// Runs the whole assembly pipeline against the processed source
    /// lines, resolving imports against the given external symbol tables.
    /// On success the produced image carries the origin, the encoded
    /// instruction words, the materialized data words — both at addresses
    /// relative to the origin — and the final symbol table.  Diagnostics
    /// from every phase are collected and returned together.
    pub fn assemble(&mut self, external_symbols: &Vec<Symbol>) -> (r: Result<
        ExecutableImageOut,
        Vec<AsmblrErr>,
    >)
        requires
            table_wf(old(self).instruction_set.entries@),
        ensures
            match spec_assemble(
                source_lines_model(old(self).processed_lines@),
                symbols_model(external_symbols@),
                old(self).case_insensitive_labels,
                table_model(old(self).instruction_set.entries@),
            ) {
                Ok(img) => r matches Ok(out) && out.origin == img.origin && out.instructions@
                    == img.instructions && out.data@ == img.data && symbols_model(
                    out.symbol_table@,
                ) == img.symbols && out.name@ == old(self).file_path@,
                Err(e) => r is Err,
            },
    {
        let ghost pls = source_lines_model(self.processed_lines@);
        let ghost ext = symbols_model(external_symbols@);
        let ghost ci = self.case_insensitive_labels;
        let ghost table = table_model(self.instruction_set.entries@);
        let mut errors: Vec<AsmblrErr> = Vec::new();
        let mut failed = false;
        let mut img = ExecutableImageOut::new(self.file_path.clone());

        match self.tokenize() {
            Ok(u) => {},
            Err(mut e) => {
                errors.append(&mut e);
                failed = true;
            },
        }
        match self.parse_origin_and_end() {
            Ok(oe) => {
                img.origin = oe.0;
            },
            Err(mut e) => {
                img.origin = self.orig;
                errors.append(&mut e);
                failed = true;
            },
        }
        match self.load_symbols() {
            Ok(u) => {},
            Err(mut e) => {
                errors.append(&mut e);
                failed = true;
            },
        }
        let data_list = match self.parse_directives_to_list() {
            Ok(list) => list,
            Err(mut e) => {
                errors.append(&mut e);
                failed = true;
                Vec::new()
            },
        };
        self.adjust_symbols();
        match self.resolve_external_symbols(external_symbols) {
            Ok(u) => {},
            Err(mut e) => {
                errors.append(&mut e);
                return Err(errors);
            },
        }
        match self.parse_instructions() {
            Ok(ws) => {
                img.instructions = ws;
            },
            Err(mut e) => {
                errors.append(&mut e);
                failed = true;
            },
        }
        if failed {
            return Err(errors);
        }
        let orig = img.origin;
        let mut data: Vec<MemoryWrite> = Vec::new();
        let mut di: usize = 0;
        let ghost dmodel = data_list@.map_values(
            |wv: (u16, u16)| MemoryWrite { rel_addr: wrap_add(wv.0, neg16(orig)), value: wv.1 },
        );
        while di < data_list.len()
            invariant
                di <= data_list@.len(),
                dmodel == data_list@.map_values(
                    |wv: (u16, u16)|
                        MemoryWrite { rel_addr: wrap_add(wv.0, neg16(orig)), value: wv.1 },
                ),
                data@ =~= dmodel.take(di as int),
            decreases data_list@.len() - di,
        {
            let wv = data_list[di];
            data.push(MemoryWrite { rel_addr: add_2s_complement(wv.0, invert_sign(orig)), value: wv.1 });
            proof {
                assert(data@ =~= dmodel.take(di as int + 1));
            }
            di += 1;
        }
        proof {
            assert(data@ =~= dmodel);
        }
        img.data = data;
        let mut final_syms: Vec<Symbol> = Vec::new();
        std::mem::swap(&mut final_syms, &mut self.symbol_table);
        img.symbol_table = final_syms;
        Ok(img)
    }
}


// ---------------------------------------------------------------------------
// Required-bits law
// ---------------------------------------------------------------------------

/// Every bit of `word` survives the operand walk: operands only set bits.
proof fn lemma_encode_walk_keeps_bits(
    tokens: Seq<TokenModel>,
    params: Seq<Param>,
    i: nat,
    word: u16,
    argc: nat,
    opcode: u16,
    rel_addr: u16,
    syms: Seq<SymbolModel>,
    ci: bool,
)
    requires
        encode_walk(tokens, params, i, word, argc, opcode, rel_addr, syms, ci) is Ok,
    ensures
        encode_walk(tokens, params, i, word, argc, opcode, rel_addr, syms, ci)->Ok_0.0 | word
            == encode_walk(tokens, params, i, word, argc, opcode, rel_addr, syms, ci)->Ok_0.0,
    decreases tokens.len() - i,
{
    lemma_or_keeps(word);
    if i >= tokens.len() {
    } else if argc == params.len() {
    } else if i % 2 == 0 && !(tokens[i as int] is Comma) {
    } else if tokens[i as int] is Comma {
        lemma_encode_walk_keeps_bits(tokens, params, i + 1, word, argc, opcode, rel_addr, syms, ci);
    } else if !valid_arg(tokens[i as int], params[argc as int]) {
    } else {
        match encode_operand(word, params[argc as int], tokens[i as int], opcode, rel_addr, syms, ci) {
            Err(e) => {},
            Ok(w2) => {
                assert(w2 | word == w2) by {
                    lemma_or_keeps(word);
                }
                lemma_encode_walk_keeps_bits(
                    tokens,
                    params,
                    i + 1,
                    w2,
                    argc + 1,
                    opcode,
                    rel_addr,
                    syms,
                    ci,
                );
                let w3 = encode_walk(
                    tokens,
                    params,
                    i + 1,
                    w2,
                    argc + 1,
                    opcode,
                    rel_addr,
                    syms,
                    ci,
                )->Ok_0.0;
                assert(w3 | w2 == w3 && w2 | word == w2 ==> w3 | word == w3) by (bit_vector);
            },
        }
    }
}

/// Merging more bits into a word keeps the bits it has.
proof fn lemma_or_keeps(word: u16)
    by (bit_vector)
    ensures
        word | word == word,
        forall|x: u16| #[trigger] (word | x) | word == word | x,
        forall|x: u16, y: u16| #[trigger] (((word | x) | y) | word) == (word | x) | y,
{
}

/// Every word the encoder produces sets all the required bits of the
/// definition its mnemonic selected, and carries that definition's opcode
/// bits.
pub proof fn lemma_encoded_word_has_required_bits(
    table: Seq<TableEntryModel>,
    tokens: Seq<TokenModel>,
    rel_addr: u16,
    syms: Seq<SymbolModel>,
    ci: bool,
    k: int,
)
    requires
        tokens.len() > 0,
        tokens[0] is Instruction,
        lookup_idx(table, tokens[0]->Instruction_0, 0) == Some(k),
        0 <= k < table.len(),
        spec_encode_line(table, tokens, rel_addr, syms, ci) is EncOk,
    ensures
        ({
            let w = spec_encode_line(table, tokens, rel_addr, syms, ci)->EncOk_0;
            let d = table[k].def;
            (w & d.flags_word) == d.flags_word && (w & d.opcode) == d.opcode
        }),
{
    let d = table[k].def;
    let base = d.opcode | d.flags_word;
    lemma_encode_walk_keeps_bits(tokens, d.params, 1, base, 0, d.opcode, rel_addr, syms, ci);
    let w = spec_encode_line(table, tokens, rel_addr, syms, ci)->EncOk_0;
    let dop = d.opcode;
    let dfl = d.flags_word;
    assert(w | (dop | dfl) == w ==> (w & dfl) == dfl && (w & dop) == dop) by (bit_vector);
}

// ---------------------------------------------------------------------------
// Disassembly
// ---------------------------------------------------------------------------

/// A word matches a definition fully when it carries the definition's
/// opcode, all its required bits, and none of its forbidden bits.
pub open spec fn variant_match_full(d: InstrDefModel, mem: u16) -> bool {
    d.opcode == mem & 0xF000 && (mem & d.flags_word) == d.flags_word && (mem & d.not_flags_word)
        == 0
}

/// A word matches a definition loosely when it carries the opcode and the
/// required bits.
pub open spec fn variant_match_req(d: InstrDefModel, mem: u16) -> bool {
    d.opcode == mem & 0xF000 && (mem & d.flags_word) == d.flags_word
}

/// The first table index whose definition matches fully.
pub open spec fn first_full_match(es: Seq<TableEntryModel>, mem: u16, k: nat) -> Option<int>
    decreases es.len() - k,
{
    if k >= es.len() {
        None
    } else if variant_match_full(es[k as int].def, mem) {
        Some(k as int)
    } else {
        first_full_match(es, mem, k + 1)
    }
}

/// The first table index whose definition matches loosely.
pub open spec fn first_req_match(es: Seq<TableEntryModel>, mem: u16, k: nat) -> Option<int>
    decreases es.len() - k,
{
    if k >= es.len() {
        None
    } else if variant_match_req(es[k as int].def, mem) {
        Some(k as int)
    } else {
        first_req_match(es, mem, k + 1)
    }
}

/// The definition a word disassembles against: the first full match, or
/// failing that the first loose match.  Specific variants stand earlier in
/// the table than the general forms sharing their opcode, so the most
/// specific variant wins.
pub open spec fn spec_resolve_variant(es: Seq<TableEntryModel>, mem: u16) -> Option<int> {
    match first_full_match(es, mem, 0) {
        Some(k) => Some(k),
        None => first_req_match(es, mem, 0),
    }
}

/// A full match is sound: the selected definition carries the word's
/// opcode, every required bit set, and every forbidden bit clear — the
/// mask invariant, for the variant the disassembler selects.
pub proof fn lemma_resolved_variant_masks(es: Seq<TableEntryModel>, mem: u16, j: nat)
    requires
        j <= es.len(),
    ensures
        first_full_match(es, mem, j) matches Some(k) ==> j <= k < es.len() && variant_match_full(
            es[k].def,
            mem,
        ),
    decreases es.len() - j,
{
    if j < es.len() && !variant_match_full(es[j as int].def, mem) {
        lemma_resolved_variant_masks(es, mem, j + 1);
    }
}

impl InstructionSet {
    /// Picks the definition a word disassembles against.
    pub fn resolve_variant(&self, mem: u16) -> (r: Option<usize>)
        ensures
            match r {
                Some(k) => k < self.entries@.len() && spec_resolve_variant(
                    table_model(self.entries@),
                    mem,
                ) == Some(k as int),
                None => spec_resolve_variant(table_model(self.entries@), mem) is None,
            },
    {
        let ghost tm = table_model(self.entries@);
        let opc = crate::binary_utils::get_opcode_16bit(mem);
        let n = self.entries.len();
        let mut k: usize = 0;
        while k < n
            invariant
                k <= n,
                n == self.entries@.len(),
                tm == table_model(self.entries@),
                opc == mem & 0xF000,
                first_full_match(tm, mem, 0) == first_full_match(tm, mem, k as nat),
            decreases n - k,
        {
            let d = &self.entries[k].1;
            proof {
                assert(tm[k as int].def == def_model(self.entries@[k as int].1));
            }
            if d.opcode == opc && (mem & d.flags_word) == d.flags_word && (mem & d.not_flags_word)
                == 0 {
                return Some(k);
            }
            k += 1;
        }
        let mut k: usize = 0;
        while k < n
            invariant
                k <= n,
                n == self.entries@.len(),
                tm == table_model(self.entries@),
                opc == mem & 0xF000,
                first_full_match(tm, mem, 0) is None,
                first_req_match(tm, mem, 0) == first_req_match(tm, mem, k as nat),
            decreases n - k,
        {
            let d = &self.entries[k].1;
            proof {
                assert(tm[k as int].def == def_model(self.entries@[k as int].1));
            }
            if d.opcode == opc && (mem & d.flags_word) == d.flags_word {
                return Some(k);
            }
            k += 1;
        }
        None
    }
}

/// The token one operand of a word disassembles to: registers by their
/// field, immediates as signed decimal literals, and a label operand as
/// the named symbol at the target address, or the address itself.
pub open spec fn spec_disasm_arg(
    p: Param,
    mem: u16,
    pc: u16,
    opcode: u16,
    syms: Seq<SymbolModel>,
) -> TokenModel {
    match p {
        Param::Register(pos) => TokenModel::Register(field_spec(mem, pos, (pos + 2) as u16)),
        Param::RegisterMultiMapped(p1, p2) => TokenModel::Register(
            field_spec(mem, p1, (p1 + 2) as u16),
        ),
        Param::Bits(n) => signed_literal(sext_spec(field_spec(mem, 0, (n - 1) as u16), (n - 1) as u16)),
        Param::RegisterORImm5 => {
            if bit_set(mem, 5) {
                signed_literal(sext_spec(field_spec(mem, 0, 4), 4))
            } else {
                TokenModel::Register(field_spec(mem, 0, 2))
            }
        },
        Param::Label => {
            let w: u16 = if opcode == 0x4000 {
                11
            } else {
                9
            };
            let target = wrap_add(pc, sext_spec(field_spec(mem, 0, (w - 1) as u16), (w - 1) as u16));
            match find_symbol_by_abs(syms, target) {
                Some(sym) => TokenModel::Label(sym.name),
                None => TokenModel::HexLiteral(
                    NumberLiteral { sign: Sign::PLUS, value: target, bits: bits_for(target) },
                ),
            }
        },
    }
}

/// The signed decimal literal of a two's-complement word.
pub open spec fn signed_literal(v: u16) -> TokenModel {
    if to_signed(v) < 0 {
        TokenModel::DecimalLiteral(
            NumberLiteral { sign: Sign::MINUS, value: neg16(v), bits: bits_for(neg16(v)) },
        )
    } else {
        TokenModel::DecimalLiteral(NumberLiteral { sign: Sign::PLUS, value: v, bits: bits_for(v) })
    }
}

/// The first symbol placed at the given absolute address.
pub open spec fn find_symbol_by_abs(syms: Seq<SymbolModel>, abs: u16) -> Option<SymbolModel>
    decreases syms.len(),
{
    if syms.len() == 0 {
        None
    } else if syms[0].abs_addr == abs {
        Some(syms[0])
    } else {
        find_symbol_by_abs(syms.skip(1), abs)
    }
}

/// The operand tokens of a word against a definition, separated by commas.
pub open spec fn spec_disasm_args(
    params: Seq<Param>,
    mem: u16,
    pc: u16,
    opcode: u16,
    syms: Seq<SymbolModel>,
) -> Seq<TokenModel>
    decreases params.len(),
{
    if params.len() == 0 {
        Seq::empty()
    } else if params.len() == 1 {
        seq![spec_disasm_arg(params[0], mem, pc, opcode, syms)]
    } else {
        seq![spec_disasm_arg(params[0], mem, pc, opcode, syms), TokenModel::Comma]
            + spec_disasm_args(params.skip(1), mem, pc, opcode, syms)
    }
}

/// The tokens a word disassembles to: the mnemonic of the resolved
/// variant, then its operands.
pub open spec fn spec_disassemble_tokens(
    es: Seq<TableEntryModel>,
    mem: u16,
    pc: u16,
    syms: Seq<SymbolModel>,
) -> Option<Seq<TokenModel>> {
    match spec_resolve_variant(es, mem) {
        None => None,
        Some(k) => {
            let d = es[k].def;
            Some(
                seq![TokenModel::Instruction(es[k].mnemonic)] + spec_disasm_args(
                    d.params,
                    mem,
                    pc,
                    d.opcode,
                    syms,
                ),
            )
        },
    }
}

/// Finds the first symbol at the given absolute address.
fn find_symbol_by_abs_exec(syms: &Vec<Symbol>, abs: u16) -> (r: Option<usize>)
    ensures
        match r {
            Some(k) => k < syms@.len() && find_symbol_by_abs(symbols_model(syms@), abs) == Some(
                syms@[k as int]@,
            ),
            None => find_symbol_by_abs(symbols_model(syms@), abs) is None,
        },
{
    let ghost model = symbols_model(syms@);
    let mut k: usize = 0;
    proof {
        assert(model.skip(0) =~= model);
    }
    while k < syms.len()
        invariant
            k <= syms@.len(),
            model == symbols_model(syms@),
            find_symbol_by_abs(model, abs) == find_symbol_by_abs(model.skip(k as int), abs),
        decreases syms@.len() - k,
    {
        proof {
            assert(model.skip(k as int)[0] == model[k as int]);
            assert(model[k as int] == syms@[k as int]@);
            assert(model.skip(k as int).skip(1) =~= model.skip(k as int + 1));
        }
        if syms[k].abs_addr == abs {
            return Some(k);
        }
        k += 1;
    }
    proof {
        assert(model.skip(syms@.len() as int) =~= Seq::<SymbolModel>::empty());
    }
    None
}

impl InstructionSet {
    /// The tokens a word disassembles to: the resolved variant's mnemonic,
    /// then its operands with separating commas.  `pc` is the incremented
    /// program counter the word's PC-relative operands are taken against.
    pub fn disassemble_tokens(&self, mem: u16, pc: u16, syms: &Vec<Symbol>) -> (r: Option<
        Vec<Token>,
    >)
        requires
            table_wf(self.entries@),
        ensures
            match r {
                Some(ts) => spec_disassemble_tokens(
                    table_model(self.entries@),
                    mem,
                    pc,
                    symbols_model(syms@),
                ) == Some(tokens_model(ts@)),
                None => spec_disassemble_tokens(
                    table_model(self.entries@),
                    mem,
                    pc,
                    symbols_model(syms@),
                ) is None,
            },
    {
        let ghost tm = table_model(self.entries@);
        let k = match self.resolve_variant(mem) {
            None => {
                return None;
            },
            Some(k) => k,
        };
        proof {
            assert(tm[k as int] == TableEntryModel {
                mnemonic: self.entries@[k as int].0@,
                def: def_model(self.entries@[k as int].1),
            });
        }
        let d = &self.entries[k].1;
        let ghost dspec = self.entries@[k as int].1;
        let mut out: Vec<Token> = Vec::new();
        out.push(Token::Instruction(self.entries[k].0.clone()));
        let np = d.params.len();
        let mut pi: usize = 0;
        proof {
            assert(tokens_model(out@) =~= seq![
                TokenModel::Instruction(self.entries@[k as int].0@),
            ]);
        }
        while pi < np
            invariant
                pi <= np,
                np == dspec.params@.len(),
                dspec == self.entries@[k as int].1,
                d == &self.entries@[k as int].1,
                table_wf(self.entries@),
                0 <= k < self.entries@.len(),
                def_wf(dspec),
                tokens_model(out@) =~= seq![
                    TokenModel::Instruction(self.entries@[k as int].0@),
                ] + spec_disasm_args_prefix(dspec.params@, pi as nat, mem, pc, dspec.opcode,
                symbols_model(syms@)),
            decreases np - pi,
        {
            let ghost pre = tokens_model(out@);
            if pi > 0 {
                out.push(Token::Comma);
            }
            let p = &d.params[pi];
            proof {
                assert(param_wf(dspec.params@[pi as int]));
            }
            let tok: Token = match p {
                Param::Register(pos) => Token::Register(
                    crate::binary_utils::get_register_at(mem, (*pos, *pos + 2)),
                ),
                Param::RegisterMultiMapped(p1, p2) => Token::Register(
                    crate::binary_utils::get_register_at(mem, (*p1, *p1 + 2)),
                ),
                Param::Bits(n) => signed_literal_exec(
                    crate::binary_utils::get_sign_ext_value(mem, *n),
                ),
                Param::RegisterORImm5 => {
                    if flag_is_set(mem, 5) {
                        signed_literal_exec(crate::binary_utils::get_sign_ext_value(mem, 5))
                    } else {
                        Token::Register(crate::binary_utils::get_register_at(mem, (0, 2)))
                    }
                },
                Param::Label => {
                    let w: u16 = if d.opcode == 0x4000 {
                        11
                    } else {
                        9
                    };
                    let target = add_2s_complement(
                        pc,
                        crate::binary_utils::get_sign_ext_value(mem, w),
                    );
                    match find_symbol_by_abs_exec(syms, target) {
                        Some(si) => Token::Label(syms[si].name.clone()),
                        None => Token::HexLiteral(
                            NumberLiteral {
                                sign: Sign::PLUS,
                                value: target,
                                bits: crate::binary_utils::bits_required_for_number(target),
                            },
                        ),
                    }
                },
            };
            proof {
                assert(tok@ == spec_disasm_arg(
                    dspec.params@[pi as int],
                    mem,
                    pc,
                    dspec.opcode,
                    symbols_model(syms@),
                ));
            }
            out.push(tok);
            proof {
                lemma_disasm_args_prefix_step(
                    dspec.params@,
                    pi as nat,
                    mem,
                    pc,
                    dspec.opcode,
                    symbols_model(syms@),
                );
                if pi == 0 {
                    assert(tokens_model(out@) =~= pre.push(tok@));
                } else {
                    assert(tokens_model(out@) =~= pre + seq![TokenModel::Comma, tok@]);
                }
                assert(tokens_model(out@) =~= seq![
                    TokenModel::Instruction(self.entries@[k as int].0@),
                ] + spec_disasm_args_prefix(dspec.params@, (pi + 1) as nat, mem, pc, dspec.opcode,
                symbols_model(syms@)));
            }
            pi += 1;
        }
        proof {
            lemma_disasm_args_prefix_full(dspec.params@, mem, pc, dspec.opcode, symbols_model(syms@));
        }
        Some(out)
    }

    /// The disassembly text of one memory word: the resolved variant's
    /// mnemonic and operands printed canonically, or an empty text for a
    /// word no variant matches.
    pub fn dissasemble_memory(
        mem: u16,
        incremented_program_counter: Option<u16>,
        symbol_table: Option<&SymbolTable>,
        instr_set: Option<&InstructionSet>,
    ) -> (r: String)
        requires
            instr_set matches Some(t) ==> table_wf(t.entries@),
        ensures
            ({
                let tm = match instr_set {
                    Some(t) => table_model(t.entries@),
                    None => canonical_table(),
                };
                let syms_m = match symbol_table {
                    Some(st) => symbols_model(st@),
                    None => Seq::empty(),
                };
                let pc = match incremented_program_counter {
                    Some(p) => p,
                    None => 0,
                };
                r@ == (match spec_disassemble_tokens(tm, mem, pc, syms_m) {
                    None => Seq::<char>::empty(),
                    Some(ts) => crate::tokenizer::spec_print_tokens(ts),
                })
            }),
    {
        let own_table: InstructionSet;
        let table: &InstructionSet = match instr_set {
            Some(t) => t,
            None => {
                own_table = InstructionSet::define_instruction_set();
                &own_table
            },
        };
        let pc = match incremented_program_counter {
            Some(pc) => pc,
            None => 0,
        };
        let empty_syms: Vec<Symbol>;
        let syms: &Vec<Symbol> = match symbol_table {
            Some(t) => t,
            None => {
                empty_syms = Vec::new();
                &empty_syms
            },
        };
        proof {
            if symbol_table is None {
                assert(symbols_model(syms@) =~= Seq::<SymbolModel>::empty());
            }
        }
        match table.disassemble_tokens(mem, pc, syms) {
            None => String::new(),
            Some(ts) => Token::print_tokens(&ts),
        }
    }
}

/// The first `k` operands of a definition, with separating commas.
pub open spec fn spec_disasm_args_prefix(
    params: Seq<Param>,
    k: nat,
    mem: u16,
    pc: u16,
    opcode: u16,
    syms: Seq<SymbolModel>,
) -> Seq<TokenModel> {
    spec_disasm_args(params.take(k as int), mem, pc, opcode, syms)
}

/// Taking one more operand appends a comma and its token.
proof fn lemma_disasm_args_prefix_step(
    params: Seq<Param>,
    k: nat,
    mem: u16,
    pc: u16,
    opcode: u16,
    syms: Seq<SymbolModel>,
)
    requires
        k < params.len(),
    ensures
        k == 0 ==> spec_disasm_args_prefix(params, 1, mem, pc, opcode, syms) == seq![
            spec_disasm_arg(params[0], mem, pc, opcode, syms),
        ],
        k > 0 ==> spec_disasm_args_prefix(params, k + 1, mem, pc, opcode, syms)
            == spec_disasm_args_prefix(params, k, mem, pc, opcode, syms) + seq![
            TokenModel::Comma,
            spec_disasm_arg(params[k as int], mem, pc, opcode, syms),
        ],
    decreases k,
{
    if k == 0 {
        assert(params.take(1)[0] == params[0]);
        assert(spec_disasm_args(params.take(1), mem, pc, opcode, syms) =~= seq![
            spec_disasm_arg(params[0], mem, pc, opcode, syms),
        ]);
    } else {
        let a = params.take(k as int);
        let b = params.take(k as int + 1);
        assert(b[0] == params[0] && a[0] == params[0]);
        if k == 1 {
            assert(b.skip(1) =~= seq![params[1]]);
            assert(spec_disasm_args(b.skip(1), mem, pc, opcode, syms) == seq![
                spec_disasm_arg(params[1], mem, pc, opcode, syms),
            ]);
            assert(spec_disasm_args(b, mem, pc, opcode, syms) =~= spec_disasm_args(
                a,
                mem,
                pc,
                opcode,
                syms,
            ) + seq![TokenModel::Comma, spec_disasm_arg(params[1], mem, pc, opcode, syms)]);
        } else {
            assert(b.skip(1) =~= params.skip(1).take(k as int));
            assert(a.skip(1) =~= params.skip(1).take(k as int - 1));
            lemma_disasm_args_prefix_step(params.skip(1), (k - 1) as nat, mem, pc, opcode, syms);
            assert(params.skip(1)[k - 1] == params[k as int]);
            assert(spec_disasm_args(b, mem, pc, opcode, syms) =~= spec_disasm_args(
                a,
                mem,
                pc,
                opcode,
                syms,
            ) + seq![
                TokenModel::Comma,
                spec_disasm_arg(params[k as int], mem, pc, opcode, syms),
            ]);
        }
    }
}

/// The full operand list is the full prefix.
proof fn lemma_disasm_args_prefix_full(
    params: Seq<Param>,
    mem: u16,
    pc: u16,
    opcode: u16,
    syms: Seq<SymbolModel>,
)
    ensures
        spec_disasm_args_prefix(params, params.len(), mem, pc, opcode, syms) == spec_disasm_args(
            params,
            mem,
            pc,
            opcode,
            syms,
        ),
{
    assert(params.take(params.len() as int) =~= params);
}

/// The signed decimal literal token of a two's-complement word.
fn signed_literal_exec(v: u16) -> (r: Token)
    ensures
        r@ == signed_literal(v),
{
    if crate::binary_utils::is_negative(v) {
        let m = invert_sign(v);
        Token::DecimalLiteral(
            NumberLiteral {
                sign: Sign::MINUS,
                value: m,
                bits: crate::binary_utils::bits_required_for_number(m),
            },
        )
    } else {
        Token::DecimalLiteral(
            NumberLiteral {
                sign: Sign::PLUS,
                value: v,
                bits: crate::binary_utils::bits_required_for_number(v),
            },
        )
    }
}


// ---------------------------------------------------------------------------
// Remaining assembler operations
// ---------------------------------------------------------------------------

/// Sequential renumbering that drops token-empty lines and whole directive
/// lines: every kept line gets the next index.
pub open spec fn spec_trim_lines(lines: Seq<TokenizedLineModel>, idx: u16) -> Seq<
    TokenizedLineModel,
>
    decreases lines.len(),
{
    if lines.len() == 0 {
        Seq::empty()
    } else {
        let l = lines[0];
        if l.tokens.len() == 0 || l.tokens[0] is Directive {
            spec_trim_lines(lines.skip(1), idx)
        } else {
            seq![
                TokenizedLineModel { rel_addr: idx, src_ln_number: l.src_ln_number, tokens: l.tokens },
            ] + spec_trim_lines(lines.skip(1), wrap_add(idx, 1))
        }
    }
}

/// A trap service routine assembled from its own source: the image words,
/// the origin they load at, the vector that reaches them, and the
/// materialized data words at absolute addresses.
#[derive(Debug)]
pub struct TrapInstruction {
    pub instructions: Vec<u16>,
    pub origin: u16,
    pub trap_vector: u16,
    pub memory_writes: Vec<(u16, u16)>,
}

impl TrapInstruction {
    /// The trap routine a produced image defines, reached through the
    /// given vector.
    pub fn from_image(img: &ExecutableImageOut, trap_vector: u16) -> (r: Self)
        ensures
            r.origin == img.origin,
            r.trap_vector == trap_vector,
            r.instructions@ == img.instructions@.map_values(|w: MemoryWrite| w.value),
            r.memory_writes@ == img.data@.map_values(
                |w: MemoryWrite| (wrap_add(img.origin, w.rel_addr), w.value),
            ),
    {
        let mut instructions: Vec<u16> = Vec::new();
        let mut i: usize = 0;
        while i < img.instructions.len()
            invariant
                i <= img.instructions@.len(),
                instructions@ =~= img.instructions@.map_values(|w: MemoryWrite| w.value).take(
                    i as int,
                ),
            decreases img.instructions@.len() - i,
        {
            instructions.push(img.instructions[i].value);
            proof {
                assert(instructions@ =~= img.instructions@.map_values(
                    |w: MemoryWrite| w.value,
                ).take(i as int + 1));
            }
            i += 1;
        }
        let mut memory_writes: Vec<(u16, u16)> = Vec::new();
        let mut j: usize = 0;
        while j < img.data.len()
            invariant
                j <= img.data@.len(),
                memory_writes@ =~= img.data@.map_values(
                    |w: MemoryWrite| (wrap_add(img.origin, w.rel_addr), w.value),
                ).take(j as int),
            decreases img.data@.len() - j,
        {
            let w = img.data[j];
            memory_writes.push((add_2s_complement(img.origin, w.rel_addr), w.value));
            proof {
                assert(memory_writes@ =~= img.data@.map_values(
                    |w: MemoryWrite| (wrap_add(img.origin, w.rel_addr), w.value),
                ).take(j as int + 1));
            }
            j += 1;
        }
        proof {
            assert(instructions@ =~= img.instructions@.map_values(|w: MemoryWrite| w.value));
            assert(memory_writes@ =~= img.data@.map_values(
                |w: MemoryWrite| (wrap_add(img.origin, w.rel_addr), w.value),
            ));
        }
        TrapInstruction { instructions, origin: img.origin, trap_vector, memory_writes }
    }
}

/// A word list applied to the machine in order, each write with device
/// interposition.
pub open spec fn spec_apply_writes(
    s: crate::virtual_machine::VmState,
    io: crate::virtual_machine::IOMap,
    ws: Seq<(u16, u16)>,
) -> crate::virtual_machine::VmState
    decreases ws.len(),
{
    if ws.len() == 0 {
        s
    } else {
        spec_apply_writes(
            crate::virtual_machine::spec_write_mem(s, io, ws[0].0, ws[0].1),
            io,
            ws.skip(1),
        )
    }
}

/// Applies a word list to the machine in order.
pub fn apply_writes(vm: &mut crate::virtual_machine::VirtualMachine, ws: &Vec<(u16, u16)>)
    requires
        crate::virtual_machine::vm_wf(*old(vm)),
    ensures
        crate::virtual_machine::vm_wf(*final(vm)),
        crate::virtual_machine::vm_state(*final(vm)) == spec_apply_writes(
            crate::virtual_machine::vm_state(*old(vm)),
            crate::virtual_machine::io_map(*old(vm)),
            ws@,
        ),
        crate::virtual_machine::io_map(*final(vm)) == crate::virtual_machine::io_map(*old(vm)),
        final(vm).program_counter == old(vm).program_counter,
        final(vm).origin == old(vm).origin,
        final(vm).current_instruction == old(vm).current_instruction,
{
    let ghost io = crate::virtual_machine::io_map(*vm);
    let mut i: usize = 0;
    proof {
        assert(ws@.skip(0) =~= ws@);
    }
    while i < ws.len()
        invariant
            i <= ws@.len(),
            crate::virtual_machine::vm_wf(*vm),
            crate::virtual_machine::io_map(*vm) == io,
            io == crate::virtual_machine::io_map(*old(vm)),
            vm.program_counter == old(vm).program_counter,
            vm.origin == old(vm).origin,
            vm.current_instruction == old(vm).current_instruction,
            spec_apply_writes(
                crate::virtual_machine::vm_state(*old(vm)),
                io,
                ws@,
            ) == spec_apply_writes(crate::virtual_machine::vm_state(*vm), io, ws@.skip(i as int)),
        decreases ws@.len() - i,
    {
        let w = ws[i];
        proof {
            assert(ws@.skip(i as int)[0] == ws@[i as int]);
            assert(ws@.skip(i as int).skip(1) =~= ws@.skip(i as int + 1));
        }
        vm.write_memory(w.0, w.1);
        i += 1;
    }
    proof {
        assert(ws@.skip(ws@.len() as int) =~= Seq::<(u16, u16)>::empty());
    }
}

impl Assembler {
    /// Rebuilds the instruction-set table.
    pub fn parse(&mut self)
        ensures
            table_wf(final(self).instruction_set.entries@),
            table_model(final(self).instruction_set.entries@) == canonical_table(),
            *final(self) == (Assembler {
                instruction_set: final(self).instruction_set,
                ..*old(self)
            }),
    {
        self.instruction_set = InstructionSet::define_instruction_set();
    }

    /// Drops token-empty lines and whole directive lines and renumbers the
    /// rest sequentially.
    pub fn trim_lines(&mut self)
        ensures
            tokenized_lines_model(final(self).tokenized_lines@) == spec_trim_lines(
                tokenized_lines_model(old(self).tokenized_lines@),
                0,
            ),
            *final(self) == (Assembler {
                tokenized_lines: final(self).tokenized_lines,
                ..*old(self)
            }),
    {
        let ghost orig_model = tokenized_lines_model(self.tokenized_lines@);
        let mut old_lines: Vec<TokenizedLine> = Vec::new();
        std::mem::swap(&mut old_lines, &mut self.tokenized_lines);
        let total = old_lines.len();
        let mut rev: Vec<TokenizedLine> = Vec::new();
        while old_lines.len() > 0
            invariant
                old_lines@.len() + rev@.len() == total,
                total == orig_model.len(),
                forall|k: int| 0 <= k < old_lines@.len() ==> #[trigger] old_lines@[k]@ == orig_model[k],
                forall|k: int|
                    0 <= k < rev@.len() ==> #[trigger] rev@[k]@ == orig_model[total - 1 - k],
            decreases old_lines@.len(),
        {
            match old_lines.pop() {
                Some(l) => {
                    rev.push(l);
                },
                None => {
                    proof {
                        assert(false);
                    }
                },
            }
        }
        let mut out: Vec<TokenizedLine> = Vec::new();
        let mut addr: u16 = 0;
        let mut idx: usize = 0;
        proof {
            assert(orig_model.skip(0) =~= orig_model);
        }
        while rev.len() > 0
            invariant
                idx + rev@.len() == total,
                total == orig_model.len(),
                forall|k: int|
                    0 <= k < rev@.len() ==> #[trigger] rev@[k]@ == orig_model[total - 1 - k],
                spec_trim_lines(orig_model, 0) == tokenized_lines_model(out@) + spec_trim_lines(
                    orig_model.skip(idx as int),
                    addr,
                ),
            decreases rev@.len(),
        {
            let ghost pre = out@;
            match rev.pop() {
                None => {
                    proof {
                        assert(false);
                    }
                },
                Some(l) => {
                    proof {
                        assert(l@ == orig_model[idx as int]);
                        assert(orig_model.skip(idx as int)[0] == orig_model[idx as int]);
                        assert(orig_model.skip(idx as int).skip(1) =~= orig_model.skip(
                            idx as int + 1,
                        ));
                    }
                    let dropped = l.tokens.len() == 0 || matches!(&l.tokens[0], Token::Directive(_));
                    proof {
                        if l@.tokens.len() > 0 {
                            assert(l@.tokens[0] == l.tokens@[0]@);
                        }
                    }
                    if !dropped {
                        let next_addr = add_2s_complement(addr, 1);
                        let nl = TokenizedLine {
                            rel_addr: addr,
                            src_ln_number: l.src_ln_number,
                            tokens: l.tokens,
                        };
                        out.push(nl);
                        proof {
                            assert(tokenized_lines_model(out@) =~= tokenized_lines_model(pre).push(
                                out@.last()@,
                            ));
                            let rest = spec_trim_lines(orig_model.skip(idx as int + 1), next_addr);
                            assert(tokenized_lines_model(pre) + (seq![out@.last()@] + rest)
                                =~= tokenized_lines_model(out@) + rest);
                        }
                        addr = next_addr;
                    }
                    idx += 1;
                },
            }
        }
        proof {
            assert(idx == total);
            assert(orig_model.skip(total as int) =~= Seq::<TokenizedLineModel>::empty());
            assert(tokenized_lines_model(out@) + Seq::<TokenizedLineModel>::empty()
                =~= tokenized_lines_model(out@));
        }
        self.tokenized_lines = out;
    }

    /// Materializes the directives and writes their words straight into
    /// the machine's memory.
    pub fn parse_directives(
        &mut self,
        vm: &mut crate::virtual_machine::VirtualMachine,
    ) -> (r: Result<(), Vec<AsmblrErr>>)
        requires
            crate::virtual_machine::vm_wf(*old(vm)),
        ensures
            crate::virtual_machine::vm_wf(*final(vm)),
            ({
                let m = spec_materialize(
                    tokenized_lines_model(old(self).tokenized_lines@),
                    0,
                    old(self).orig,
                    symbols_model(old(self).symbol_table@),
                    Seq::empty(),
                    false,
                );
                &&& symbols_model(final(self).symbol_table@) == m.1
                &&& (r is Ok ==> !m.2 && crate::virtual_machine::vm_state(*final(vm))
                    == spec_apply_writes(
                    crate::virtual_machine::vm_state(*old(vm)),
                    crate::virtual_machine::io_map(*old(vm)),
                    m.0,
                ))
                &&& (r is Err ==> m.2 && *final(vm) == *old(vm))
            }),
            *final(self) == (Assembler { symbol_table: final(self).symbol_table, ..*old(self) }),
    {
        let ws = match self.parse_directives_to_list() {
            Ok(ws) => ws,
            Err(e) => {
                return Err(e);
            },
        };
        apply_writes(vm, &ws);
        Ok(())
    }

    /// Encodes the instructions, loads the trap routines and the program
    /// into the machine, points it at the origin, and steps it until it
    /// halts (or a practically unreachable step bound runs out).
    pub fn parse_instructions_then_run(
        &mut self,
        vm: &mut crate::virtual_machine::VirtualMachine,
        trap_instructions: Option<Vec<TrapInstruction>>,
    ) -> (r: Result<(), Vec<AsmblrErr>>)
        requires
            crate::virtual_machine::vm_wf(*old(vm)),
            table_wf(old(self).instruction_set.entries@),
        ensures
            crate::virtual_machine::vm_wf(*final(vm)),
            r is Err ==> spec_parse_instructions(
                table_model(old(self).instruction_set.entries@),
                old(self).tokenized_lines@.map_values(|l: TokenizedLine| l@),
                symbols_model(old(self).symbol_table@),
                old(self).case_insensitive_labels,
            ) is Err,
    {
        let words = match self.parse_instructions() {
            Ok(ws) => ws,
            Err(e) => {
                return Err(e);
            },
        };
        match trap_instructions {
            Some(traps) => {
                let mut t: usize = 0;
                while t < traps.len()
                    invariant
                        crate::virtual_machine::vm_wf(*vm),
                    decreases traps@.len() - t,
                {
                    let trap = &traps[t];
                    vm.write_memory(trap.trap_vector, trap.origin);
                    apply_writes(vm, &trap.memory_writes);
                    let mut w: usize = 0;
                    while w < trap.instructions.len()
                        invariant
                            crate::virtual_machine::vm_wf(*vm),
                        decreases trap.instructions@.len() - w,
                    {
                        let addr = add_2s_complement(trap.origin, w as u16);
                        vm.write_memory(addr, trap.instructions[w]);
                        w += 1;
                    }
                    t += 1;
                }
            },
            None => {},
        }
        let orig = self.orig;
        let mut w: usize = 0;
        while w < words.len()
            invariant
                crate::virtual_machine::vm_wf(*vm),
            decreases words@.len() - w,
        {
            let mw = words[w];
            vm.write_memory(add_2s_complement(orig, mw.rel_addr), mw.value);
            w += 1;
        }
        vm.set_program_origin(orig);
        let mut budget: u64 = u64::MAX;
        while vm.run && budget > 0
            invariant
                crate::virtual_machine::vm_wf(*vm),
            decreases budget,
        {
            vm.fetch();
            vm.decode();
            vm.execute();
            budget = budget - 1;
        }
        Ok(())
    }
}


} // verus!
