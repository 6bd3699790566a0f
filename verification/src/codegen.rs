//! The code generator: stack-machine commands to assembly mnemonic lines.
//!
//! A [`CodeWriter`] accumulates output lines and owns the two counters
//! that keep generated labels unique: one for comparison branches, one
//! for call sites. Every emitter's contract states the exact line
//! sequence it appends, as a sequence function over the operands and the
//! counter values.

use vstd::prelude::*;
use vstd::string::*;
use crate::numerals::{dec_str, dec_string, lemma_dec_str_injective};
use crate::parser::{ArithOp, Segment};
use crate::text::views;

verus! {

// ---------------------------------------------------------------------------
// Emitted line sequences
// ---------------------------------------------------------------------------

/// The decimal rendering of a counter or index.
pub open spec fn dec(n: u64) -> Seq<char> {
    dec_str(n as nat)
}

/// The name of a comparison's "true" label.
pub open spec fn true_mark(c: u64) -> Seq<char> {
    "TRUE_"@ + dec(c)
}

/// The name of a comparison's "end" label.
pub open spec fn end_mark(c: u64) -> Seq<char> {
    "END_"@ + dec(c)
}

/// The return-address label of one call site: qualified by the function
/// name and the call counter, so repeated or recursive calls never share
/// a label.
pub open spec fn ret_mark(f: Seq<char>, c: u64) -> Seq<char> {
    f + "$ret."@ + dec(c)
}

/// A binary operation: pop into the data register, combine with the new
/// top of stack in place, leave one result.
pub open spec fn binary_asm(op_line: Seq<char>) -> Seq<Seq<char>> {
    seq![
        "@SP"@,
        "M=M-1"@,
        "A=M"@,
        "D=M"@,
        "@SP"@,
        "M=M-1"@,
        "A=M"@,
        op_line,
        "@SP"@,
        "M=M+1"@,
    ]
}

/// A unary operation: transform the top of stack in place.
pub open spec fn unary_asm(op_line: Seq<char>) -> Seq<Seq<char>> {
    seq!["@SP"@, "M=M-1"@, "A=M"@, op_line, "@SP"@, "M=M+1"@]
}

/// A comparison: compute `second - top`, branch on `cond` to a fresh
/// "true" label, write false on the fall-through path, converge at a
/// fresh "end" label.
pub open spec fn cmp_asm(cond: Seq<char>, c: u64) -> Seq<Seq<char>> {
    seq![
        "@SP"@,
        "M=M-1"@,
        "A=M"@,
        "D=M"@,
        "@SP"@,
        "M=M-1"@,
        "A=M"@,
        "D=M-D"@,
        "@"@ + true_mark(c),
        "D;"@ + cond,
        "@SP"@,
        "A=M"@,
        "M=0"@,
        "@"@ + end_mark(c),
        "0;JMP"@,
        "("@ + true_mark(c) + ")"@,
        "@SP"@,
        "A=M"@,
        "M=-1"@,
        "("@ + end_mark(c) + ")"@,
        "@SP"@,
        "M=M+1"@,
    ]
}

/// Whether an operation is a comparison (and so consumes a label number).
pub open spec fn is_cmp(op: ArithOp) -> bool {
    op == ArithOp::CmpEq || op == ArithOp::CmpGt || op == ArithOp::CmpLt
}

/// The lines an arithmetic or logical operation emits, given the branch
/// counter value.
pub open spec fn arith_asm(op: ArithOp, c: u64) -> Seq<Seq<char>> {
    match op {
        ArithOp::Add => binary_asm("M=D+M"@),
        ArithOp::Sub => binary_asm("M=M-D"@),
        ArithOp::And => binary_asm("M=D&M"@),
        ArithOp::Or => binary_asm("M=D|M"@),
        ArithOp::Neg => unary_asm("M=-M"@),
        ArithOp::Not => unary_asm("M=!M"@),
        ArithOp::CmpEq => cmp_asm("JEQ"@, c),
        ArithOp::CmpGt => cmp_asm("JGT"@, c),
        ArithOp::CmpLt => cmp_asm("JLT"@, c),
    }
}

/// A push from a base-register segment: effective address is
/// `base + index`.
pub open spec fn seg_push_asm(base: Seq<char>, idx: u16) -> Seq<Seq<char>> {
    seq![
        "@"@ + dec(idx as u64),
        "D=A"@,
        base,
        "A=D+M"@,
        "D=M"@,
        "@SP"@,
        "A=M"@,
        "M=D"@,
        "@SP"@,
        "M=M+1"@,
    ]
}

/// The lines a push emits.
pub open spec fn push_asm(seg: Segment, idx: u16, unit: Seq<char>) -> Seq<Seq<char>> {
    match seg {
        Segment::Argument => seg_push_asm("@ARG"@, idx),
        Segment::Local => seg_push_asm("@LCL"@, idx),
        Segment::This => seg_push_asm("@THIS"@, idx),
        Segment::That => seg_push_asm("@THAT"@, idx),
        Segment::Constant => seq![
            "@"@ + dec(idx as u64),
            "D=A"@,
            "@SP"@,
            "A=M"@,
            "M=D"@,
            "@SP"@,
            "M=M+1"@,
        ],
        Segment::Static => seq![
            "@"@ + unit + "."@ + dec(idx as u64),
            "D=M"@,
            "@SP"@,
            "A=M"@,
            "M=D"@,
            "@SP"@,
            "M=M+1"@,
        ],
        Segment::Pointer => seq![
            if idx == 0 {
                "@THIS"@
            } else {
                "@THAT"@
            },
            "D=M"@,
            "@SP"@,
            "A=M"@,
            "M=D"@,
            "@SP"@,
            "M=M+1"@,
        ],
        Segment::Temp => seq![
            "@"@ + dec((5 + idx as u64) as u64),
            "D=M"@,
            "@SP"@,
            "A=M"@,
            "M=D"@,
            "@SP"@,
            "M=M+1"@,
        ],
    }
}

/// A pop to a base-register segment: the effective address is parked in
/// the first scratch register, the stack pointer is decremented first,
/// and the value now below it is stored there.
pub open spec fn seg_pop_asm(base: Seq<char>, idx: u16) -> Seq<Seq<char>> {
    seq![
        "@"@ + dec(idx as u64),
        "D=A"@,
        base,
        "D=D+M"@,
        "@R13"@,
        "M=D"@,
        "@SP"@,
        "M=M-1"@,
        "A=M"@,
        "D=M"@,
        "@R13"@,
        "A=M"@,
        "M=D"@,
    ]
}

/// The lines a pop emits (the constant segment admits no pop).
pub open spec fn pop_asm(seg: Segment, idx: u16, unit: Seq<char>) -> Seq<Seq<char>> {
    match seg {
        Segment::Argument => seg_pop_asm("@ARG"@, idx),
        Segment::Local => seg_pop_asm("@LCL"@, idx),
        Segment::This => seg_pop_asm("@THIS"@, idx),
        Segment::That => seg_pop_asm("@THAT"@, idx),
        Segment::Static => seq![
            "@SP"@,
            "M=M-1"@,
            "A=M"@,
            "D=M"@,
            "@"@ + unit + "."@ + dec(idx as u64),
            "M=D"@,
        ],
        Segment::Pointer => seq![
            "@SP"@,
            "M=M-1"@,
            "A=M"@,
            "D=M"@,
            if idx == 0 {
                "@THIS"@
            } else {
                "@THAT"@
            },
            "M=D"@,
        ],
        Segment::Temp => seq![
            "@SP"@,
            "M=M-1"@,
            "A=M"@,
            "D=M"@,
            "@"@ + dec((5 + idx as u64) as u64),
            "M=D"@,
        ],
        Segment::Constant => Seq::empty(),
    }
}

/// A label: a bare program-counter anchor.
pub open spec fn label_asm(name: Seq<char>) -> Seq<Seq<char>> {
    seq!["("@ + name + ")"@]
}

/// An unconditional jump.
pub open spec fn goto_asm(name: Seq<char>) -> Seq<Seq<char>> {
    seq!["@"@ + name, "0;JMP"@]
}

/// A conditional jump: pop the top of stack, branch when it is non-zero.
pub open spec fn if_goto_asm(name: Seq<char>) -> Seq<Seq<char>> {
    seq!["@SP"@, "M=M-1"@, "A=M"@, "D=M"@, "@"@ + name, "D;JNE"@]
}

/// Pushing the data register onto the stack.
pub open spec fn push_d_asm() -> Seq<Seq<char>> {
    seq!["@SP"@, "A=M"@, "M=D"@, "@SP"@, "M=M+1"@]
}

/// The call protocol: push the return address and the caller's four base
/// pointers (in that fixed order), reposition the argument pointer to
/// `stack pointer - 5 - argCount` and the local pointer to the stack
/// pointer, transfer control, and anchor the return address.
pub open spec fn call_asm(f: Seq<char>, n: u16, c: u64) -> Seq<Seq<char>> {
    seq!["@"@ + ret_mark(f, c), "D=A"@] + push_d_asm() + seq!["@LCL"@, "D=M"@] + push_d_asm()
        + seq!["@ARG"@, "D=M"@] + push_d_asm() + seq!["@THIS"@, "D=M"@] + push_d_asm() + seq![
        "@THAT"@,
        "D=M"@,
    ] + push_d_asm() + seq![
        "@SP"@,
        "D=M"@,
        "@5"@,
        "D=D-A"@,
        "@"@ + dec(n as u64),
        "D=D-A"@,
        "@ARG"@,
        "M=D"@,
        "@SP"@,
        "D=M"@,
        "@LCL"@,
        "M=D"@,
        "@"@ + f,
        "0;JMP"@,
        "("@ + ret_mark(f, c) + ")"@,
    ]
}

/// Zero-initialized local slots: `k` pushes of the constant 0.
pub open spec fn zero_locals(k: nat) -> Seq<Seq<char>>
    decreases k,
{
    if k == 0 {
        Seq::empty()
    } else {
        zero_locals((k - 1) as nat) + push_asm(Segment::Constant, 0, Seq::empty())
    }
}

/// A function entry: its label, then its declared count of zeroed locals.
pub open spec fn function_asm(f: Seq<char>, k: u16) -> Seq<Seq<char>> {
    label_asm(f) + zero_locals(k as nat)
}

/// The return protocol: park the frame base in the first scratch
/// register and the return address (read from `frame - 5` before the
/// stack moves) in the second; copy the return value to the caller's
/// first argument slot; restore the stack pointer to one past it; then
/// restore the four saved pointers in reverse order of save, each read
/// through the parked frame base, so that moving the stack pointer never
/// invalidates the frame's addressing; finally jump to the return
/// address.
pub open spec fn return_asm() -> Seq<Seq<char>> {
    seq![
        "@LCL"@,
        "D=M"@,
        "@R13"@,
        "M=D"@,
        "@5"@,
        "A=D-A"@,
        "D=M"@,
        "@R14"@,
        "M=D"@,
        "@SP"@,
        "M=M-1"@,
        "A=M"@,
        "D=M"@,
        "@ARG"@,
        "A=M"@,
        "M=D"@,
        "@ARG"@,
        "D=M+1"@,
        "@SP"@,
        "M=D"@,
        "@R13"@,
        "M=M-1"@,
        "A=M"@,
        "D=M"@,
        "@THAT"@,
        "M=D"@,
        "@R13"@,
        "M=M-1"@,
        "A=M"@,
        "D=M"@,
        "@THIS"@,
        "M=D"@,
        "@R13"@,
        "M=M-1"@,
        "A=M"@,
        "D=M"@,
        "@ARG"@,
        "M=D"@,
        "@R13"@,
        "M=M-1"@,
        "A=M"@,
        "D=M"@,
        "@LCL"@,
        "M=D"@,
        "@R14"@,
        "A=M"@,
        "0;JMP"@,
    ]
}

/// The output text: lines joined by single newlines, with no trailing
/// newline.
pub open spec fn join_lines(ls: Seq<Seq<char>>) -> Seq<char>
    decreases ls.len(),
{
    if ls.len() == 0 {
        Seq::empty()
    } else if ls.len() == 1 {
        ls[0]
    } else {
        join_lines(ls.drop_last()) + "\n"@ + ls.last()
    }
}

// ---------------------------------------------------------------------------
// The writer
// ---------------------------------------------------------------------------

/// Accumulates assembly lines for one translation unit.
pub struct CodeWriter {
    output: Vec<String>,
    filename: String,
    label_counter: u64,
    call_counter: u64,
}

impl CodeWriter {
    /// The lines emitted so far.
    pub closed spec fn lines(&self) -> Seq<Seq<char>> {
        views(self.output@)
    }

    /// The translation unit's name, qualifying its static symbols.
    pub closed spec fn unit(&self) -> Seq<char> {
        self.filename@
    }

    /// How many comparison label numbers have been consumed.
    pub closed spec fn branches(&self) -> u64 {
        self.label_counter
    }

    /// How many call-site label numbers have been consumed.
    pub closed spec fn calls(&self) -> u64 {
        self.call_counter
    }

    /// A writer for one translation unit, with no output yet.
    pub fn new(filename: &str) -> (w: CodeWriter)
        ensures
            w.lines() == Seq::<Seq<char>>::empty(),
            w.unit() == filename@,
            w.branches() == 0,
            w.calls() == 0,
    {
        let w = CodeWriter {
            output: Vec::new(),
            filename: String::from_str(filename),
            label_counter: 0,
            call_counter: 0,
        };
        proof {
            assert(w.lines() =~= Seq::<Seq<char>>::empty());
        }
        w
    }

    /// Appends one fixed line.
    fn push_lit(&mut self, s: &str)
        ensures
            final(self).lines() == old(self).lines().push(s@),
            final(self).unit() == old(self).unit(),
            final(self).branches() == old(self).branches(),
            final(self).calls() == old(self).calls(),
    {
        let v = String::from_str(s);
        let ghost before = self.output@;
        self.output.push(v);
        proof {
            assert(views(self.output@) =~= views(before).push(s@));
        }
    }

    /// Appends one computed line.
    fn push_line(&mut self, s: String)
        ensures
            final(self).lines() == old(self).lines().push(s@),
            final(self).unit() == old(self).unit(),
            final(self).branches() == old(self).branches(),
            final(self).calls() == old(self).calls(),
    {
        let ghost sv = s@;
        let ghost before = self.output@;
        self.output.push(s);
        proof {
            assert(views(self.output@) =~= views(before).push(sv));
        }
    }

    /// Emits one arithmetic or logical operation. A comparison consumes
    /// one fresh label number.
    pub fn write_arithmetic(&mut self, op: ArithOp)
        requires
            old(self).branches() < u64::MAX,
        ensures
            final(self).lines() == old(self).lines() + arith_asm(op, old(self).branches()),
            final(self).branches() == old(self).branches() + (if is_cmp(op) {
                1u64
            } else {
                0u64
            }),
            final(self).calls() == old(self).calls(),
            final(self).unit() == old(self).unit(),
    {
        match op {
            ArithOp::Add => self.binary_op("M=D+M"),
            ArithOp::Sub => self.binary_op("M=M-D"),
            ArithOp::And => self.binary_op("M=D&M"),
            ArithOp::Or => self.binary_op("M=D|M"),
            ArithOp::Neg => self.unary_op("M=-M"),
            ArithOp::Not => self.unary_op("M=!M"),
            ArithOp::CmpEq => self.comparison("JEQ"),
            ArithOp::CmpGt => self.comparison("JGT"),
            ArithOp::CmpLt => self.comparison("JLT"),
        }
    }

    fn binary_op(&mut self, op_line: &str)
        ensures
            final(self).lines() == old(self).lines() + binary_asm(op_line@),
            final(self).branches() == old(self).branches(),
            final(self).calls() == old(self).calls(),
            final(self).unit() == old(self).unit(),
    {
        self.push_lit("@SP");
        self.push_lit("M=M-1");
        self.push_lit("A=M");
        self.push_lit("D=M");
        self.push_lit("@SP");
        self.push_lit("M=M-1");
        self.push_lit("A=M");
        self.push_lit(op_line);
        self.push_lit("@SP");
        self.push_lit("M=M+1");
        proof {
            assert(self.lines() =~~= old(self).lines() + binary_asm(op_line@));
        }
    }

    fn unary_op(&mut self, op_line: &str)
        ensures
            final(self).lines() == old(self).lines() + unary_asm(op_line@),
            final(self).branches() == old(self).branches(),
            final(self).calls() == old(self).calls(),
            final(self).unit() == old(self).unit(),
    {
        self.push_lit("@SP");
        self.push_lit("M=M-1");
        self.push_lit("A=M");
        self.push_lit(op_line);
        self.push_lit("@SP");
        self.push_lit("M=M+1");
        proof {
            assert(self.lines() =~~= old(self).lines() + unary_asm(op_line@));
        }
    }

    fn comparison(&mut self, cond: &str)
        requires
            old(self).branches() < u64::MAX,
        ensures
            final(self).lines() == old(self).lines() + cmp_asm(cond@, old(self).branches()),
            final(self).branches() == old(self).branches() + 1,
            final(self).calls() == old(self).calls(),
            final(self).unit() == old(self).unit(),
    {
        let ghost c = self.label_counter;
        let num = dec_string(self.label_counter);
        proof {
            assert(num@ == dec(c));
        }
        self.push_lit("@SP");
        self.push_lit("M=M-1");
        self.push_lit("A=M");
        self.push_lit("D=M");
        self.push_lit("@SP");
        self.push_lit("M=M-1");
        self.push_lit("A=M");
        self.push_lit("D=M-D");
        let mut tj = String::from_str("@");
        tj.append("TRUE_");
        tj.append(num.as_str());
        self.push_line(tj);
        let mut cj = String::from_str("D;");
        cj.append(cond);
        self.push_line(cj);
        self.push_lit("@SP");
        self.push_lit("A=M");
        self.push_lit("M=0");
        let mut ej = String::from_str("@");
        ej.append("END_");
        ej.append(num.as_str());
        self.push_line(ej);
        self.push_lit("0;JMP");
        let mut tl = String::from_str("(");
        tl.append("TRUE_");
        tl.append(num.as_str());
        tl.append(")");
        self.push_line(tl);
        self.push_lit("@SP");
        self.push_lit("A=M");
        self.push_lit("M=-1");
        let mut el = String::from_str("(");
        el.append("END_");
        el.append(num.as_str());
        el.append(")");
        self.push_line(el);
        self.push_lit("@SP");
        self.push_lit("M=M+1");
        self.label_counter = self.label_counter + 1;
        proof {
            assert(self.lines() =~~= old(self).lines() + cmp_asm(cond@, c));
        }
    }

    /// Emits a push of `segment[index]`.
    pub fn write_push(&mut self, segment: Segment, index: u16)
        ensures
            final(self).lines() == old(self).lines() + push_asm(segment, index, old(self).unit()),
            final(self).branches() == old(self).branches(),
            final(self).calls() == old(self).calls(),
            final(self).unit() == old(self).unit(),
    {
        match segment {
            Segment::Argument => self.push_from_base("@ARG", index),
            Segment::Local => self.push_from_base("@LCL", index),
            Segment::This => self.push_from_base("@THIS", index),
            Segment::That => self.push_from_base("@THAT", index),
            Segment::Constant => {
                self.push_line(at_number(index as u64));
                self.push_lit("D=A");
                self.push_lit("@SP");
                self.push_lit("A=M");
                self.push_lit("M=D");
                self.push_lit("@SP");
                self.push_lit("M=M+1");
                proof {
                    assert(self.lines() =~~= old(self).lines() + push_asm(
                        Segment::Constant,
                        index,
                        old(self).unit(),
                    ));
                }
            },
            Segment::Static => {
                let mut s = String::from_str("@");
                s.append(self.filename.as_str());
                s.append(".");
                s.append(dec_string(index as u64).as_str());
                self.push_line(s);
                self.push_lit("D=M");
                self.push_lit("@SP");
                self.push_lit("A=M");
                self.push_lit("M=D");
                self.push_lit("@SP");
                self.push_lit("M=M+1");
                proof {
                    assert(self.lines() =~~= old(self).lines() + push_asm(
                        Segment::Static,
                        index,
                        old(self).unit(),
                    ));
                }
            },
            Segment::Pointer => {
                if index == 0 {
                    self.push_lit("@THIS");
                } else {
                    self.push_lit("@THAT");
                }
                self.push_lit("D=M");
                self.push_lit("@SP");
                self.push_lit("A=M");
                self.push_lit("M=D");
                self.push_lit("@SP");
                self.push_lit("M=M+1");
                proof {
                    assert(self.lines() =~~= old(self).lines() + push_asm(
                        Segment::Pointer,
                        index,
                        old(self).unit(),
                    ));
                }
            },
            Segment::Temp => {
                self.push_line(at_number(5 + index as u64));
                self.push_lit("D=M");
                self.push_lit("@SP");
                self.push_lit("A=M");
                self.push_lit("M=D");
                self.push_lit("@SP");
                self.push_lit("M=M+1");
                proof {
                    assert(self.lines() =~~= old(self).lines() + push_asm(
                        Segment::Temp,
                        index,
                        old(self).unit(),
                    ));
                }
            },
        }
    }

    fn push_from_base(&mut self, base: &str, index: u16)
        ensures
            final(self).lines() == old(self).lines() + seg_push_asm(base@, index),
            final(self).branches() == old(self).branches(),
            final(self).calls() == old(self).calls(),
            final(self).unit() == old(self).unit(),
    {
        self.push_line(at_number(index as u64));
        self.push_lit("D=A");
        self.push_lit(base);
        self.push_lit("A=D+M");
        self.push_lit("D=M");
        self.push_lit("@SP");
        self.push_lit("A=M");
        self.push_lit("M=D");
        self.push_lit("@SP");
        self.push_lit("M=M+1");
        proof {
            assert(self.lines() =~~= old(self).lines() + seg_push_asm(base@, index));
        }
    }

    /// Emits a pop into `segment[index]`. The constant segment is not an
    /// address, so it admits no pop.
    pub fn write_pop(&mut self, segment: Segment, index: u16)
        requires
            segment != Segment::Constant,
        ensures
            final(self).lines() == old(self).lines() + pop_asm(segment, index, old(self).unit()),
            final(self).branches() == old(self).branches(),
            final(self).calls() == old(self).calls(),
            final(self).unit() == old(self).unit(),
    {
        match segment {
            Segment::Argument => self.pop_to_base("@ARG", index),
            Segment::Local => self.pop_to_base("@LCL", index),
            Segment::This => self.pop_to_base("@THIS", index),
            Segment::That => self.pop_to_base("@THAT", index),
            Segment::Static => {
                self.push_lit("@SP");
                self.push_lit("M=M-1");
                self.push_lit("A=M");
                self.push_lit("D=M");
                let mut s = String::from_str("@");
                s.append(self.filename.as_str());
                s.append(".");
                s.append(dec_string(index as u64).as_str());
                self.push_line(s);
                self.push_lit("M=D");
                proof {
                    assert(self.lines() =~~= old(self).lines() + pop_asm(
                        Segment::Static,
                        index,
                        old(self).unit(),
                    ));
                }
            },
            Segment::Pointer => {
                self.push_lit("@SP");
                self.push_lit("M=M-1");
                self.push_lit("A=M");
                self.push_lit("D=M");
                if index == 0 {
                    self.push_lit("@THIS");
                } else {
                    self.push_lit("@THAT");
                }
                self.push_lit("M=D");
                proof {
                    assert(self.lines() =~~= old(self).lines() + pop_asm(
                        Segment::Pointer,
                        index,
                        old(self).unit(),
                    ));
                }
            },
            Segment::Temp => {
                self.push_lit("@SP");
                self.push_lit("M=M-1");
                self.push_lit("A=M");
                self.push_lit("D=M");
                self.push_line(at_number(5 + index as u64));
                self.push_lit("M=D");
                proof {
                    assert(self.lines() =~~= old(self).lines() + pop_asm(
                        Segment::Temp,
                        index,
                        old(self).unit(),
                    ));
                }
            },
            Segment::Constant => {
                proof {
                    assert(false);
                }
            },
        }
    }

    fn pop_to_base(&mut self, base: &str, index: u16)
        ensures
            final(self).lines() == old(self).lines() + seg_pop_asm(base@, index),
            final(self).branches() == old(self).branches(),
            final(self).calls() == old(self).calls(),
            final(self).unit() == old(self).unit(),
    {
        self.push_line(at_number(index as u64));
        self.push_lit("D=A");
        self.push_lit(base);
        self.push_lit("D=D+M");
        self.push_lit("@R13");
        self.push_lit("M=D");
        self.push_lit("@SP");
        self.push_lit("M=M-1");
        self.push_lit("A=M");
        self.push_lit("D=M");
        self.push_lit("@R13");
        self.push_lit("A=M");
        self.push_lit("M=D");
        proof {
            assert(self.lines() =~~= old(self).lines() + seg_pop_asm(base@, index));
        }
    }

    /// Emits a program-counter anchor for `label`.
    pub fn write_label(&mut self, label: &str)
        ensures
            final(self).lines() == old(self).lines() + label_asm(label@),
            final(self).branches() == old(self).branches(),
            final(self).calls() == old(self).calls(),
            final(self).unit() == old(self).unit(),
    {
        let mut s = String::from_str("(");
        s.append(label);
        s.append(")");
        self.push_line(s);
        proof {
            assert(self.lines() =~~= old(self).lines() + label_asm(label@));
        }
    }

    /// Emits an unconditional jump to `label`.
    pub fn write_goto(&mut self, label: &str)
        ensures
            final(self).lines() == old(self).lines() + goto_asm(label@),
            final(self).branches() == old(self).branches(),
            final(self).calls() == old(self).calls(),
            final(self).unit() == old(self).unit(),
    {
        let mut s = String::from_str("@");
        s.append(label);
        self.push_line(s);
        self.push_lit("0;JMP");
        proof {
            assert(self.lines() =~~= old(self).lines() + goto_asm(label@));
        }
    }

    /// Emits a pop-and-branch: control transfers when the popped value is
    /// non-zero.
    pub fn write_if_goto(&mut self, label: &str)
        ensures
            final(self).lines() == old(self).lines() + if_goto_asm(label@),
            final(self).branches() == old(self).branches(),
            final(self).calls() == old(self).calls(),
            final(self).unit() == old(self).unit(),
    {
        self.push_lit("@SP");
        self.push_lit("M=M-1");
        self.push_lit("A=M");
        self.push_lit("D=M");
        let mut s = String::from_str("@");
        s.append(label);
        self.push_line(s);
        self.push_lit("D;JNE");
        proof {
            assert(self.lines() =~~= old(self).lines() + if_goto_asm(label@));
        }
    }

    fn push_d(&mut self)
        ensures
            final(self).lines() == old(self).lines() + push_d_asm(),
            final(self).branches() == old(self).branches(),
            final(self).calls() == old(self).calls(),
            final(self).unit() == old(self).unit(),
    {
        self.push_lit("@SP");
        self.push_lit("A=M");
        self.push_lit("M=D");
        self.push_lit("@SP");
        self.push_lit("M=M+1");
        proof {
            assert(self.lines() =~~= old(self).lines() + push_d_asm());
        }
    }

    /// Emits the call protocol for `function` with `arg_count` arguments
    /// already pushed. Consumes one fresh call-site label number.
    pub fn write_call(&mut self, function: &str, arg_count: u16)
        requires
            old(self).calls() < u64::MAX,
        ensures
            final(self).lines() == old(self).lines() + call_asm(
                function@,
                arg_count,
                old(self).calls(),
            ),
            final(self).calls() == old(self).calls() + 1,
            final(self).branches() == old(self).branches(),
            final(self).unit() == old(self).unit(),
    {
        let ghost c = self.call_counter;
        let num = dec_string(self.call_counter);
        proof {
            assert(num@ == dec(c));
        }
        let mut ra = String::from_str("@");
        ra.append(function);
        ra.append("$ret.");
        ra.append(num.as_str());
        self.push_line(ra);
        self.push_lit("D=A");
        self.push_d();
        self.push_lit("@LCL");
        self.push_lit("D=M");
        self.push_d();
        self.push_lit("@ARG");
        self.push_lit("D=M");
        self.push_d();
        self.push_lit("@THIS");
        self.push_lit("D=M");
        self.push_d();
        self.push_lit("@THAT");
        self.push_lit("D=M");
        self.push_d();
        self.push_lit("@SP");
        self.push_lit("D=M");
        self.push_lit("@5");
        self.push_lit("D=D-A");
        self.push_line(at_number(arg_count as u64));
        self.push_lit("D=D-A");
        self.push_lit("@ARG");
        self.push_lit("M=D");
        self.push_lit("@SP");
        self.push_lit("D=M");
        self.push_lit("@LCL");
        self.push_lit("M=D");
        let mut fj = String::from_str("@");
        fj.append(function);
        self.push_line(fj);
        self.push_lit("0;JMP");
        let mut rl = String::from_str("(");
        rl.append(function);
        rl.append("$ret.");
        rl.append(num.as_str());
        rl.append(")");
        self.push_line(rl);
        self.call_counter = self.call_counter + 1;
        proof {
            assert(self.lines() =~~= old(self).lines() + call_asm(function@, arg_count, c));
        }
    }

    /// Emits a function entry: its label, then `local_count` zeroed local
    /// slots, reusing the push-constant path.
    pub fn write_function(&mut self, function: &str, local_count: u16)
        ensures
            final(self).lines() == old(self).lines() + function_asm(function@, local_count),
            final(self).branches() == old(self).branches(),
            final(self).calls() == old(self).calls(),
            final(self).unit() == old(self).unit(),
    {
        self.write_label(function);
        let ghost base = self.lines();
        let ghost b0 = self.branches();
        let ghost c0 = self.calls();
        let ghost u0 = self.unit();
        let mut j: u16 = 0;
        proof {
            assert(base + zero_locals(0) =~= base);
        }
        while j < local_count
            invariant
                0 <= j <= local_count,
                self.lines() == base + zero_locals(j as nat),
                self.branches() == b0,
                self.calls() == c0,
                self.unit() == u0,
            decreases local_count - j,
        {
            let ghost before = self.lines();
            self.write_push(Segment::Constant, 0);
            proof {
                assert(push_asm(Segment::Constant, 0, u0) =~~= push_asm(
                    Segment::Constant,
                    0,
                    Seq::empty(),
                ));
                assert(self.lines() =~= base + zero_locals((j + 1) as nat));
            }
            j = j + 1;
        }
        proof {
            assert(self.lines() =~= old(self).lines() + function_asm(function@, local_count));
        }
    }

    /// Emits the return protocol.
    #[verifier::rlimit(80)]
    pub fn write_return(&mut self)
        ensures
            final(self).lines() == old(self).lines() + return_asm(),
            final(self).branches() == old(self).branches(),
            final(self).calls() == old(self).calls(),
            final(self).unit() == old(self).unit(),
    {
        self.push_lit("@LCL");
        self.push_lit("D=M");
        self.push_lit("@R13");
        self.push_lit("M=D");
        self.push_lit("@5");
        self.push_lit("A=D-A");
        self.push_lit("D=M");
        self.push_lit("@R14");
        self.push_lit("M=D");
        self.push_lit("@SP");
        self.push_lit("M=M-1");
        self.push_lit("A=M");
        self.push_lit("D=M");
        self.push_lit("@ARG");
        self.push_lit("A=M");
        self.push_lit("M=D");
        self.push_lit("@ARG");
        self.push_lit("D=M+1");
        self.push_lit("@SP");
        self.push_lit("M=D");
        self.push_lit("@R13");
        self.push_lit("M=M-1");
        self.push_lit("A=M");
        self.push_lit("D=M");
        self.push_lit("@THAT");
        self.push_lit("M=D");
        self.push_lit("@R13");
        self.push_lit("M=M-1");
        self.push_lit("A=M");
        self.push_lit("D=M");
        self.push_lit("@THIS");
        self.push_lit("M=D");
        self.push_lit("@R13");
        self.push_lit("M=M-1");
        self.push_lit("A=M");
        self.push_lit("D=M");
        self.push_lit("@ARG");
        self.push_lit("M=D");
        self.push_lit("@R13");
        self.push_lit("M=M-1");
        self.push_lit("A=M");
        self.push_lit("D=M");
        self.push_lit("@LCL");
        self.push_lit("M=D");
        self.push_lit("@R14");
        self.push_lit("A=M");
        self.push_lit("0;JMP");
        proof {
            assert(self.lines() =~~= old(self).lines() + return_asm());
        }
    }

    /// The accumulated output, newline-joined.
    pub fn get_output(&self) -> (r: String)
        ensures
            r@ == join_lines(self.lines()),
    {
        let mut out = String::new();
        let mut i: usize = 0;
        proof {
            assert(self.lines().take(0) =~= Seq::<Seq<char>>::empty());
        }
        while i < self.output.len()
            invariant
                0 <= i <= self.output@.len(),
                out@ == join_lines(self.lines().take(i as int)),
            decreases self.output@.len() - i,
        {
            if i > 0 {
                out.append("\n");
            }
            out.append(self.output[i].as_str());
            proof {
                assert(self.lines().take(i + 1).drop_last() =~= self.lines().take(i as int));
                assert(self.lines().take(i + 1).last() == self.lines()[i as int]);
                if i == 0 {
                    assert(out@ =~= self.lines()[0]);
                    assert(join_lines(self.lines().take(1)) == self.lines().take(1)[0]);
                }
            }
            i = i + 1;
        }
        proof {
            assert(self.lines().take(self.output@.len() as int) =~= self.lines());
        }
        out
    }
}

// ---------------------------------------------------------------------------
// Laws
// ---------------------------------------------------------------------------

/// Comparison labels never collide: two comparisons emitted with
/// distinct counter values name distinct "true" and "end" labels, and a
/// "true" label never equals an "end" label. Each emitted comparison
/// increments the counter exactly once, so consecutive comparisons in
/// one unit always use distinct names.
pub proof fn lemma_comparison_labels_unique(c1: u64, c2: u64)
    requires
        c1 != c2,
    ensures
        true_mark(c1) != true_mark(c2),
        end_mark(c1) != end_mark(c2),
        forall|a: u64, b: u64| true_mark(a) != end_mark(b),
{
    lemma_dec_str_injective(c1 as nat, c2 as nat);
    lemma_prefix_cancel("TRUE_"@, dec(c1), dec(c2));
    lemma_prefix_cancel("END_"@, dec(c1), dec(c2));
    assert forall|a: u64, b: u64| true_mark(a) != end_mark(b) by {
        reveal_strlit("TRUE_");
        reveal_strlit("END_");
        if true_mark(a) == end_mark(b) {
            assert(true_mark(a)[0] == 'T');
            assert(end_mark(b)[0] == 'E');
        }
    }
}

/// Appending different suffixes to one prefix gives different sequences.
proof fn lemma_prefix_cancel(p: Seq<char>, a: Seq<char>, b: Seq<char>)
    requires
        a != b,
    ensures
        p + a != p + b,
{
    if p + a == p + b {
        assert((p + a).len() == p.len() + a.len());
        assert((p + b).len() == p.len() + b.len());
        assert(a.len() == b.len());
        assert(forall|i: int| 0 <= i < a.len() ==> a[i] == (p + a)[p.len() + i]);
        assert(forall|i: int| 0 <= i < b.len() ==> b[i] == (p + b)[p.len() + i]);
        assert(a =~= b);
    }
}

/// The line `@index` with a decimal operand.
fn at_number(index: u64) -> (r: String)
    ensures
        r@ == "@"@ + dec_str(index as nat),
{
    let mut s = String::from_str("@");
    s.append(dec_string(index).as_str());
    s
}

} // verus!
