//! The assembler: mnemonic lines to 16-bit binary words.
//!
//! [`preprocess`] reduces raw lines to logical lines. [`build_symbol_table`]
//! resolves labels (pass one) and variables (pass two) over those lines.
//! [`assemble`] then encodes every non-label line as a 16-digit binary
//! word: address instructions resolve their operand and emit it directly,
//! compute instructions combine a computation code, destination bits and a
//! jump code into one word.

use vstd::prelude::*;
use vstd::string::*;
use crate::numerals::{
    bin16, bin16_string, bin_val, lemma_bin16_value, parse_u16, parse_u16_str,
};
use crate::symbols::SymbolTable;
use crate::text::{
    clean_line, clean_lines, clean_str, cleaned, contains_char, find_sep_in, lemma_nonempty_push,
    lemma_split_sep_at, lemma_split_sep_len, split_sep, str_eq, views,
};

verus! {

// ---------------------------------------------------------------------------
// Errors
// ---------------------------------------------------------------------------

/// Why a line cannot be encoded.
#[derive(Clone, Copy, Debug, PartialEq, Eq, Structural)]
pub enum AsmErrorKind {
    /// An address-instruction operand is neither numeric nor in the table.
    UndefinedSymbol,
    /// A compute-instruction computation matches none of the fixed patterns.
    InvalidComputation,
    /// An address-instruction operand does not fit in 15 bits.
    OperandOutOfRange,
}

/// An encoding failure, with the 1-based index of the logical line that
/// caused it.
#[derive(Clone, Copy, Debug, PartialEq, Eq, Structural)]
pub struct AsmError {
    pub index: usize,
    pub kind: AsmErrorKind,
}

// ---------------------------------------------------------------------------
// Line shapes
// ---------------------------------------------------------------------------

/// A label declaration: `(name)`.
pub open spec fn is_label_decl(l: Seq<char>) -> bool {
    l.len() >= 1 && l[0] == '(' && l[l.len() - 1] == ')'
}

/// The name a label declaration binds.
pub open spec fn label_name(l: Seq<char>) -> Seq<char> {
    l.subrange(1, l.len() - 1)
}

/// An address instruction: `@operand`.
pub open spec fn is_a_instr(l: Seq<char>) -> bool {
    l.len() >= 1 && l[0] == '@'
}

/// The operand of an address instruction.
pub open spec fn a_operand(l: Seq<char>) -> Seq<char> {
    l.drop_first()
}

// ---------------------------------------------------------------------------
// Preprocessing
// ---------------------------------------------------------------------------

/// Strips comments, trims white space, and drops lines that end up blank.
pub fn preprocess(assembly_code: Vec<String>) -> (r: Vec<String>)
    ensures
        views(r@) == clean_lines(views(assembly_code@)),
{
    let ghost lls = views(assembly_code@);
    let mut out: Vec<String> = Vec::new();
    let mut i: usize = 0;
    proof {
        assert(cleaned(lls.take(0)) =~= Seq::<Seq<char>>::empty());
        reveal(Seq::filter);
        assert(views(out@) =~= clean_lines(lls.take(0)));
    }
    while i < assembly_code.len()
        invariant
            0 <= i <= assembly_code.len(),
            lls == views(assembly_code@),
            views(out@) == clean_lines(lls.take(i as int)),
        decreases assembly_code.len() - i,
    {
        let ghost old_out = out@;
        let cl = clean_str(assembly_code[i].as_str());
        if !cl.as_str().is_empty() {
            out.push(cl);
        }
        proof {
            assert(cleaned(lls.take(i + 1)) =~= cleaned(lls.take(i as int)).push(
                clean_line(lls[i as int]),
            ));
            lemma_nonempty_push(cleaned(lls.take(i as int)), clean_line(lls[i as int]));
            if clean_line(lls[i as int]).len() > 0 {
                assert(views(out@) =~= views(old_out).push(clean_line(lls[i as int])));
            }
        }
        i = i + 1;
    }
    proof {
        assert(lls.take(assembly_code@.len() as int) =~= lls);
    }
    out
}

// ---------------------------------------------------------------------------
// Symbol table construction
// ---------------------------------------------------------------------------

/// The architecture's fixed symbols: sixteen general-purpose registers,
/// the five virtual registers, and the two memory-mapped device addresses.
pub open spec fn predefined() -> Map<Seq<char>, u16> {
    Map::<Seq<char>, u16>::empty().insert("R0"@, 0).insert("R1"@, 1).insert("R2"@, 2).insert(
        "R3"@,
        3,
    ).insert("R4"@, 4).insert("R5"@, 5).insert("R6"@, 6).insert("R7"@, 7).insert("R8"@, 8).insert(
        "R9"@,
        9,
    ).insert("R10"@, 10).insert("R11"@, 11).insert("R12"@, 12).insert("R13"@, 13).insert(
        "R14"@,
        14,
    ).insert("R15"@, 15).insert("SP"@, 0).insert("LCL"@, 1).insert("ARG"@, 2).insert(
        "THIS"@,
        3,
    ).insert("THAT"@, 4).insert("SCREEN"@, 16384).insert("KBD"@, 24576)
}

/// How many instruction slots a line sequence occupies: every line but a
/// label declaration takes one.
pub open spec fn instr_count(lines: Seq<Seq<char>>) -> nat
    decreases lines.len(),
{
    if lines.len() == 0 {
        0
    } else {
        instr_count(lines.drop_last()) + (if is_label_decl(lines.last()) {
            0nat
        } else {
            1nat
        })
    }
}

/// Pass one: each label declaration binds its name to the address of the
/// next instruction. A redeclared label overwrites its earlier binding.
pub open spec fn label_pass(lines: Seq<Seq<char>>, base: Map<Seq<char>, u16>) -> Map<
    Seq<char>,
    u16,
>
    decreases lines.len(),
{
    if lines.len() == 0 {
        base
    } else {
        let m = label_pass(lines.drop_last(), base);
        if is_label_decl(lines.last()) {
            m.insert(label_name(lines.last()), instr_count(lines.drop_last()) as u16)
        } else {
            m
        }
    }
}

/// One step of pass two: a non-numeric address operand not yet in the
/// table becomes a variable at the next free address.
pub open spec fn var_step(st: (Map<Seq<char>, u16>, nat), l: Seq<char>) -> (
    Map<Seq<char>, u16>,
    nat,
) {
    if is_a_instr(l) && parse_u16(a_operand(l)) is None && !st.0.contains_key(a_operand(l)) {
        (st.0.insert(a_operand(l), st.1 as u16), st.1 + 1)
    } else {
        st
    }
}

/// Pass two over all lines, threading the next free variable address.
pub open spec fn var_pass(lines: Seq<Seq<char>>, st: (Map<Seq<char>, u16>, nat)) -> (
    Map<Seq<char>, u16>,
    nat,
)
    decreases lines.len(),
{
    if lines.len() == 0 {
        st
    } else {
        var_pass(lines.drop_first(), var_step(st, lines[0]))
    }
}

/// The complete symbol table of a logical line sequence: predefined
/// symbols, then labels, then variables from address 16 up.
pub open spec fn symbol_table_spec(lines: Seq<Seq<char>>) -> Map<Seq<char>, u16> {
    var_pass(lines, (label_pass(lines, predefined()), 16)).0
}

/// Builds the symbol table over two passes. The line count is bounded so
/// that every label and variable address fits the 16-bit address space.
pub fn build_symbol_table(code: &Vec<String>) -> (t: SymbolTable)
    requires
        code@.len() + 16 <= 65535,
    ensures
        t@ == symbol_table_spec(views(code@)),
{
    let ghost lls = views(code@);
    let mut t = SymbolTable::new();
    t.insert("R0", 0);
    t.insert("R1", 1);
    t.insert("R2", 2);
    t.insert("R3", 3);
    t.insert("R4", 4);
    t.insert("R5", 5);
    t.insert("R6", 6);
    t.insert("R7", 7);
    t.insert("R8", 8);
    t.insert("R9", 9);
    t.insert("R10", 10);
    t.insert("R11", 11);
    t.insert("R12", 12);
    t.insert("R13", 13);
    t.insert("R14", 14);
    t.insert("R15", 15);
    t.insert("SP", 0);
    t.insert("LCL", 1);
    t.insert("ARG", 2);
    t.insert("THIS", 3);
    t.insert("THAT", 4);
    t.insert("SCREEN", 16384);
    t.insert("KBD", 24576);
    proof {
        assert(t@ == predefined());
    }
    // Pass one: labels.
    let mut i: usize = 0;
    let mut pc: u16 = 0;
    proof {
        assert(lls.take(0) =~= Seq::<Seq<char>>::empty());
    }
    while i < code.len()
        invariant
            0 <= i <= code@.len(),
            code@.len() + 16 <= 65535,
            lls == views(code@),
            t@ == label_pass(lls.take(i as int), predefined()),
            pc == instr_count(lls.take(i as int)),
            pc <= i,
        decreases code@.len() - i,
    {
        let line = code[i].as_str();
        proof {
            assert(lls.take(i + 1).drop_last() =~= lls.take(i as int));
            assert(lls.take(i + 1).last() == lls[i as int]);
        }
        let n = line.unicode_len();
        if is_label_line(line) {
            let name = line.substring_char(1, n - 1);
            proof {
                assert(name@ =~= label_name(line@));
            }
            t.insert(name, pc);
        } else {
            pc = pc + 1;
        }
        i = i + 1;
    }
    proof {
        assert(lls.take(code@.len() as int) =~= lls);
    }
    // Pass two: variables.
    let ghost st0 = (t@, 16nat);
    let mut next: u16 = 16;
    i = 0;
    proof {
        assert(lls.skip(0) =~= lls);
    }
    while i < code.len()
        invariant
            0 <= i <= code@.len(),
            code@.len() + 16 <= 65535,
            lls == views(code@),
            next <= i + 16,
            var_pass(lls.skip(i as int), (t@, next as nat)) == var_pass(lls, st0),
        decreases code@.len() - i,
    {
        let line = code[i].as_str();
        let n = line.unicode_len();
        let ghost st_here = (t@, next as nat);
        proof {
            assert(lls.skip(i as int)[0] == lls[i as int]);
            assert(lls.skip(i as int).drop_first() =~= lls.skip(i + 1));
        }
        if n >= 1 && line.get_char(0) == '@' {
            let op = line.substring_char(1, n);
            proof {
                assert(op@ =~= a_operand(line@));
            }
            if parse_u16_str(op).is_none() {
                if !t.contains(op) {
                    t.insert(op, next);
                    next = next + 1;
                }
            }
        }
        proof {
            assert((t@, next as nat) == var_step(st_here, lls[i as int]));
        }
        i = i + 1;
    }
    proof {
        assert(lls.skip(code@.len() as int) =~= Seq::<Seq<char>>::empty());
    }
    t
}

/// Whether a line is a label declaration.
pub fn is_label_line(line: &str) -> (r: bool)
    ensures
        r == is_label_decl(line@),
{
    let n = line.unicode_len();
    n >= 1 && line.get_char(0) == '(' && line.get_char(n - 1) == ')'
}

// ---------------------------------------------------------------------------
// Code tables
// ---------------------------------------------------------------------------

/// The seven-bit code of a computation mnemonic, when it is one of the
/// 28 recognized patterns (18 with the memory flag clear, 10 with it set).
pub open spec fn spec_comp_code(t: Seq<char>) -> Option<u8> {
    if t == "0"@ {
        Some(0b0101010u8)
    } else if t == "1"@ {
        Some(0b0111111u8)
    } else if t == "-1"@ {
        Some(0b0111010u8)
    } else if t == "D"@ {
        Some(0b0001100u8)
    } else if t == "A"@ {
        Some(0b0110000u8)
    } else if t == "!D"@ {
        Some(0b0001101u8)
    } else if t == "!A"@ {
        Some(0b0110001u8)
    } else if t == "-D"@ {
        Some(0b0001111u8)
    } else if t == "-A"@ {
        Some(0b0110011u8)
    } else if t == "D+1"@ {
        Some(0b0011111u8)
    } else if t == "A+1"@ {
        Some(0b0110111u8)
    } else if t == "D-1"@ {
        Some(0b0001110u8)
    } else if t == "A-1"@ {
        Some(0b0110010u8)
    } else if t == "D+A"@ {
        Some(0b0000010u8)
    } else if t == "D-A"@ {
        Some(0b0010011u8)
    } else if t == "A-D"@ {
        Some(0b0000111u8)
    } else if t == "D&A"@ {
        Some(0b0000000u8)
    } else if t == "D|A"@ {
        Some(0b0010101u8)
    } else if t == "M"@ {
        Some(0b1110000u8)
    } else if t == "!M"@ {
        Some(0b1110001u8)
    } else if t == "-M"@ {
        Some(0b1110011u8)
    } else if t == "M+1"@ {
        Some(0b1110111u8)
    } else if t == "M-1"@ {
        Some(0b1110010u8)
    } else if t == "D+M"@ {
        Some(0b1000010u8)
    } else if t == "D-M"@ {
        Some(0b1010011u8)
    } else if t == "M-D"@ {
        Some(0b1000111u8)
    } else if t == "D&M"@ {
        Some(0b1000000u8)
    } else if t == "D|M"@ {
        Some(0b1010101u8)
    } else {
        None
    }
}

/// The three-bit code of a jump mnemonic. An unrecognized mnemonic means
/// "no jump"; the permissive fallback is kept deliberately, matching the
/// behaviour this assembler has always had.
pub open spec fn spec_jump_code(t: Seq<char>) -> u8 {
    if t == "JGT"@ {
        0b001u8
    } else if t == "JEQ"@ {
        0b010u8
    } else if t == "JGE"@ {
        0b011u8
    } else if t == "JLT"@ {
        0b100u8
    } else if t == "JNE"@ {
        0b101u8
    } else if t == "JLE"@ {
        0b110u8
    } else if t == "JMP"@ {
        0b111u8
    } else {
        0b000u8
    }
}

/// The three destination bits: one each for the address register, the data
/// register, and memory. This is a containment test, so any ordering of
/// the destination letters is accepted.
pub open spec fn spec_dest_bits(t: Seq<char>) -> u8 {
    ((if t.contains('A') {
        4int
    } else {
        0int
    }) + (if t.contains('D') {
        2int
    } else {
        0int
    }) + (if t.contains('M') {
        1int
    } else {
        0int
    })) as u8
}

/// Looks up a computation mnemonic's seven-bit code.
pub fn comp_table(comp: &str) -> (r: Option<u8>)
    ensures
        r == spec_comp_code(comp@),
        r is Some ==> r->0 <= 127,
{
    if str_eq(comp, "0") {
        Some(0b0101010u8)
    } else if str_eq(comp, "1") {
        Some(0b0111111u8)
    } else if str_eq(comp, "-1") {
        Some(0b0111010u8)
    } else if str_eq(comp, "D") {
        Some(0b0001100u8)
    } else if str_eq(comp, "A") {
        Some(0b0110000u8)
    } else if str_eq(comp, "!D") {
        Some(0b0001101u8)
    } else if str_eq(comp, "!A") {
        Some(0b0110001u8)
    } else if str_eq(comp, "-D") {
        Some(0b0001111u8)
    } else if str_eq(comp, "-A") {
        Some(0b0110011u8)
    } else if str_eq(comp, "D+1") {
        Some(0b0011111u8)
    } else if str_eq(comp, "A+1") {
        Some(0b0110111u8)
    } else if str_eq(comp, "D-1") {
        Some(0b0001110u8)
    } else if str_eq(comp, "A-1") {
        Some(0b0110010u8)
    } else if str_eq(comp, "D+A") {
        Some(0b0000010u8)
    } else if str_eq(comp, "D-A") {
        Some(0b0010011u8)
    } else if str_eq(comp, "A-D") {
        Some(0b0000111u8)
    } else if str_eq(comp, "D&A") {
        Some(0b0000000u8)
    } else if str_eq(comp, "D|A") {
        Some(0b0010101u8)
    } else if str_eq(comp, "M") {
        Some(0b1110000u8)
    } else if str_eq(comp, "!M") {
        Some(0b1110001u8)
    } else if str_eq(comp, "-M") {
        Some(0b1110011u8)
    } else if str_eq(comp, "M+1") {
        Some(0b1110111u8)
    } else if str_eq(comp, "M-1") {
        Some(0b1110010u8)
    } else if str_eq(comp, "D+M") {
        Some(0b1000010u8)
    } else if str_eq(comp, "D-M") {
        Some(0b1010011u8)
    } else if str_eq(comp, "M-D") {
        Some(0b1000111u8)
    } else if str_eq(comp, "D&M") {
        Some(0b1000000u8)
    } else if str_eq(comp, "D|M") {
        Some(0b1010101u8)
    } else {
        None
    }
}

/// Looks up a jump mnemonic's three-bit code.
pub fn jump_table(jump: &str) -> (r: u8)
    ensures
        r == spec_jump_code(jump@),
        r <= 7,
{
    if str_eq(jump, "JGT") {
        0b001u8
    } else if str_eq(jump, "JEQ") {
        0b010u8
    } else if str_eq(jump, "JGE") {
        0b011u8
    } else if str_eq(jump, "JLT") {
        0b100u8
    } else if str_eq(jump, "JNE") {
        0b101u8
    } else if str_eq(jump, "JLE") {
        0b110u8
    } else if str_eq(jump, "JMP") {
        0b111u8
    } else {
        0b000u8
    }
}

/// Computes the destination bits of a destination token.
pub fn dest_bits(dest: &str) -> (r: u8)
    ensures
        r == spec_dest_bits(dest@),
        r <= 7,
{
    let a: u8 = if contains_char(dest, 'A') {
        4
    } else {
        0
    };
    let d: u8 = if contains_char(dest, 'D') {
        2
    } else {
        0
    };
    let m: u8 = if contains_char(dest, 'M') {
        1
    } else {
        0
    };
    a + d + m
}

// ---------------------------------------------------------------------------
// Encoding
// ---------------------------------------------------------------------------

/// The machine word a non-label line encodes to, or why it cannot be
/// encoded.
pub open spec fn spec_encode(l: Seq<char>, t: Map<Seq<char>, u16>) -> Result<u16, AsmErrorKind> {
    if is_a_instr(l) {
        let op = a_operand(l);
        match parse_u16(op) {
            Some(v) => if v <= 32767 {
                Ok(v)
            } else {
                Err(AsmErrorKind::OperandOutOfRange)
            },
            None => if t.contains_key(op) {
                if t[op] <= 32767 {
                    Ok(t[op])
                } else {
                    Err(AsmErrorKind::OperandOutOfRange)
                }
            } else {
                Err(AsmErrorKind::UndefinedSymbol)
            },
        }
    } else {
        let parts = split_sep(l, ';', Seq::empty());
        let jump = if parts.len() > 1 {
            spec_jump_code(parts[1])
        } else {
            0u8
        };
        let dc = split_sep(parts[0], '=', Seq::empty());
        let dest = if dc.len() > 1 {
            spec_dest_bits(dc[0])
        } else {
            0u8
        };
        let comp_tok = if dc.len() > 1 {
            dc[1]
        } else {
            dc[0]
        };
        match spec_comp_code(comp_tok) {
            Some(c) => Ok(
                (57344 + (c as int) * 64 + (dest as int) * 8 + (jump as int)) as u16,
            ),
            None => Err(AsmErrorKind::InvalidComputation),
        }
    }
}

/// Encodes one non-label line as its 16-digit binary word.
pub fn encode(line: &str, symbol_table: &SymbolTable) -> (r: Result<String, AsmErrorKind>)
    ensures
        (match spec_encode(line@, symbol_table@) {
            Ok(w) => r is Ok && r->Ok_0@ == bin16(w),
            Err(k) => r is Err && r->Err_0 == k,
        }),
{
    let n = line.unicode_len();
    if n >= 1 && line.get_char(0) == '@' {
        let op = line.substring_char(1, n);
        proof {
            assert(op@ =~= a_operand(line@));
        }
        match parse_u16_str(op) {
            Some(v) => {
                if v <= 32767 {
                    Ok(bin16_string(v))
                } else {
                    Err(AsmErrorKind::OperandOutOfRange)
                }
            },
            None => {
                match symbol_table.get(op) {
                    Some(v) => {
                        if v <= 32767 {
                            Ok(bin16_string(v))
                        } else {
                            Err(AsmErrorKind::OperandOutOfRange)
                        }
                    },
                    None => Err(AsmErrorKind::UndefinedSymbol),
                }
            },
        }
    } else {
        let ghost parts = split_sep(line@, ';', Seq::empty());
        let sc = find_sep_in(line, 0, n, ';');
        proof {
            lemma_split_sep_at(line@, ';', Seq::empty(), sc as int);
            lemma_split_sep_len(line@.skip(sc + 1), ';', Seq::empty());
            assert(Seq::<char>::empty() + line@.take(sc as int) =~= line@.take(sc as int));
        }
        let jump: u8 = if sc < n {
            let sc2 = find_sep_in(line, sc + 1, n, ';');
            let jt = line.substring_char(sc + 1, sc2);
            proof {
                lemma_split_sep_at(line@.skip(sc + 1), ';', Seq::empty(), sc2 - (sc + 1));
                assert(Seq::<char>::empty() + line@.skip(sc + 1).take(sc2 - (sc + 1)) =~= line@
                    .subrange(sc + 1, sc2 as int));
                assert(parts[1] == line@.subrange(sc + 1, sc2 as int));
                assert(jt@ == parts[1]);
            }
            jump_table(jt)
        } else {
            0
        };
        proof {
            if sc == n {
                assert(parts.len() == 1);
                assert(parts[0] == Seq::<char>::empty() + line@);
                assert(parts[0] =~= line@.take(sc as int));
            } else {
                assert(parts[0] == line@.take(sc as int));
            }
        }
        let ghost head = parts[0];
        let ghost dc = split_sep(head, '=', Seq::empty());
        let eq = find_sep_in(line, 0, sc, '=');
        proof {
            assert(forall|k: int| 0 <= k < eq ==> head[k] != '=');
            assert(eq < sc ==> head[eq as int] == '=');
            lemma_split_sep_at(head, '=', Seq::empty(), eq as int);
            lemma_split_sep_len(head.skip(eq + 1), '=', Seq::empty());
        }
        let dest: u8;
        let comp_tok: &str;
        if eq < sc {
            let dt = line.substring_char(0, eq);
            proof {
                assert(Seq::<char>::empty() + head.take(eq as int) =~= head.take(eq as int));
                assert(dt@ =~= head.take(eq as int));
                assert(dc[0] == head.take(eq as int));
            }
            dest = dest_bits(dt);
            let eq2 = find_sep_in(line, eq + 1, sc, '=');
            comp_tok = line.substring_char(eq + 1, eq2);
            proof {
                let tail = head.skip(eq + 1);
                assert(forall|k: int| 0 <= k < eq2 - (eq + 1) ==> tail[k] != '=');
                assert(eq2 - (eq + 1) < tail.len() ==> tail[eq2 - (eq + 1)] == '=');
                lemma_split_sep_at(tail, '=', Seq::empty(), eq2 - (eq + 1));
                assert(Seq::<char>::empty() + tail.take(eq2 - (eq + 1)) =~= head.subrange(
                    eq + 1,
                    eq2 as int,
                ));
                assert(dc[1] == head.subrange(eq + 1, eq2 as int));
                assert(comp_tok@ =~= head.subrange(eq + 1, eq2 as int));
            }
        } else {
            dest = 0;
            comp_tok = line.substring_char(0, sc);
            proof {
                assert(dc.len() == 1);
                assert(dc[0] == Seq::<char>::empty() + head);
                assert(comp_tok@ =~= Seq::<char>::empty() + head);
            }
        }
        match comp_table(comp_tok) {
            Some(c) => {
                let word: u16 = 57344 + (c as u16) * 64 + (dest as u16) * 8 + (jump as u16);
                Ok(bin16_string(word))
            },
            None => Err(AsmErrorKind::InvalidComputation),
        }
    }
}

// ---------------------------------------------------------------------------
// Assembly of a whole program
// ---------------------------------------------------------------------------

/// The binary lines a program encodes to: one word per non-label line.
pub open spec fn encoded_lines(lines: Seq<Seq<char>>, t: Map<Seq<char>, u16>) -> Seq<Seq<char>>
    decreases lines.len(),
{
    if lines.len() == 0 {
        Seq::empty()
    } else {
        let rest = encoded_lines(lines.drop_last(), t);
        if is_label_decl(lines.last()) {
            rest
        } else {
            rest.push(bin16(spec_encode(lines.last(), t)->Ok_0))
        }
    }
}

/// The position and kind of the first encoding failure, when there is one.
pub open spec fn first_asm_error(lines: Seq<Seq<char>>, t: Map<Seq<char>, u16>) -> Option<
    (int, AsmErrorKind),
>
    decreases lines.len(),
{
    if lines.len() == 0 {
        None
    } else if !is_label_decl(lines[0]) && spec_encode(lines[0], t) is Err {
        Some((0int, spec_encode(lines[0], t)->Err_0))
    } else {
        match first_asm_error(lines.drop_first(), t) {
            None => None,
            Some((i, k)) => Some((i + 1, k)),
        }
    }
}

/// Shifts [`first_asm_error`] past a prefix of lines that encode.
pub proof fn lemma_first_asm_error_skip(lines: Seq<Seq<char>>, t: Map<Seq<char>, u16>, i: int)
    requires
        0 <= i <= lines.len(),
        forall|j: int|
            0 <= j < i ==> is_label_decl(#[trigger] lines[j]) || spec_encode(lines[j], t) is Ok,
    ensures
        first_asm_error(lines, t) == (match first_asm_error(lines.skip(i), t) {
            None => None,
            Some((k, e)) => Some((k + i, e)),
        }),
    decreases i,
{
    if i == 0 {
        assert(lines.skip(0) =~= lines);
        match first_asm_error(lines, t) {
            None => {},
            Some((k, e)) => {
                assert(Some((k, e)) == Some((k + 0, e)));
            },
        }
    } else {
        let rest = lines.drop_first();
        assert(forall|j: int|
            0 <= j < i - 1 ==> is_label_decl(#[trigger] rest[j]) || spec_encode(rest[j], t) is Ok);
        lemma_first_asm_error_skip(rest, t, i - 1);
        assert(rest.skip(i - 1) =~= lines.skip(i));
    }
}

/// Encodes every logical line; label declarations produce no output line.
/// On the first line that cannot be encoded, the error and the line's
/// 1-based index are returned instead, and no output is produced.
pub fn assemble(code: &Vec<String>, symbol_table: &SymbolTable) -> (r: Result<Vec<String>, AsmError>)
    ensures
        (match first_asm_error(views(code@), symbol_table@) {
            None => r is Ok && views(r->Ok_0@) == encoded_lines(views(code@), symbol_table@),
            Some((i, k)) => r is Err && r->Err_0.index == i + 1 && r->Err_0.kind == k,
        }),
{
    let ghost lls = views(code@);
    let mut out: Vec<String> = Vec::new();
    let mut i: usize = 0;
    proof {
        assert(lls.take(0) =~= Seq::<Seq<char>>::empty());
        assert(views(out@) =~= encoded_lines(lls.take(0), symbol_table@));
    }
    while i < code.len()
        invariant
            0 <= i <= code@.len(),
            lls == views(code@),
            views(out@) == encoded_lines(lls.take(i as int), symbol_table@),
            forall|j: int|
                0 <= j < i ==> is_label_decl(#[trigger] lls[j]) || spec_encode(
                    lls[j],
                    symbol_table@,
                ) is Ok,
        decreases code@.len() - i,
    {
        let line = code[i].as_str();
        proof {
            assert(lls.take(i + 1).drop_last() =~= lls.take(i as int));
            assert(lls.take(i + 1).last() == lls[i as int]);
        }
        if !is_label_line(line) {
            let ghost old_out = out@;
            match encode(line, symbol_table) {
                Ok(b) => {
                    out.push(b);
                    proof {
                        assert(views(out@) =~= views(old_out).push(b@));
                    }
                },
                Err(k) => {
                    proof {
                        lemma_first_asm_error_skip(lls, symbol_table@, i as int);
                        assert(lls.skip(i as int)[0] == lls[i as int]);
                    }
                    return Err(AsmError { index: i + 1, kind: k });
                },
            }
        }
        i = i + 1;
    }
    proof {
        assert(lls.take(code@.len() as int) =~= lls);
        lemma_first_asm_error_skip(lls, symbol_table@, lls.len() as int);
        assert(lls.skip(lls.len() as int) =~= Seq::<Seq<char>>::empty());
    }
    Ok(out)
}

// ---------------------------------------------------------------------------
// Laws
// ---------------------------------------------------------------------------

/// Encoding an address instruction with a numeric operand in the 15-bit
/// range yields exactly the operand's 16-digit zero-extended binary
/// rendering, whatever the symbol table holds.
pub proof fn lemma_address_instruction_binary(l: Seq<char>, t: Map<Seq<char>, u16>, n: u16)
    requires
        is_a_instr(l),
        parse_u16(a_operand(l)) == Some(n),
        n <= 32767,
    ensures
        spec_encode(l, t) == Ok::<u16, AsmErrorKind>(n),
        bin16(n).len() == 16,
        bin_val(bin16(n)) == n,
        bin16(n)[0] == '0',
{
    lemma_bin16_value(n);
}

/// No two distinct computation mnemonics share a seven-bit code: the
/// fixed table maps its 28 patterns to 28 distinct codes.
#[verifier::rlimit(100)]
pub proof fn lemma_comp_code_injective(a: Seq<char>, b: Seq<char>)
    requires
        spec_comp_code(a) is Some,
        spec_comp_code(a) == spec_comp_code(b),
    ensures
        a == b,
{
}

} // verus!
