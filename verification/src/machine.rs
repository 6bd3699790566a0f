//! A semantics for straight-line runs of the emitted assembly.
//!
//! The generated code's meaning is fixed by the target machine: an
//! address register, a data register, and a 65536-word memory whose low
//! addresses hold the stack pointer and the segment base pointers. This
//! module interprets the jump-free instruction forms the generator
//! emits, one line at a time, and proves the stack discipline of the
//! generated code: a pushed constant ends up in the popped-to slot, and
//! the call/return protocol hands the stack pointer back correctly.
//!
//! Control transfers (jumps and label anchors) are not interpreted: a
//! run models one jump-free segment of the program.

use vstd::prelude::*;
use crate::codegen::{call_asm, pop_asm, push_asm, push_d_asm, return_asm};
use crate::numerals::{
    all_digits, dec_str, dec_val, is_digit, lemma_dec_str_digits, lemma_dec_str_len,
    lemma_dec_str_val, parse_u16,
};
use crate::parser::Segment;

verus! {

/// The machine's visible state: the two registers and the whole memory.
pub struct MachineState {
    pub a: u16,
    pub d: u16,
    pub mem: Seq<u16>,
}

/// A well-formed state addresses the full 16-bit memory.
pub open spec fn wf(s: MachineState) -> bool {
    s.mem.len() == 0x10000
}

/// 16-bit wrapping addition.
pub open spec fn wadd(x: u16, y: u16) -> u16 {
    (((x + y) % 0x10000) as u16)
}

/// 16-bit wrapping subtraction.
pub open spec fn wsub(x: u16, y: u16) -> u16 {
    ((((x - y) + 0x10000) % 0x10000) as u16)
}

pub proof fn lemma_wadd_no_wrap(x: u16, y: u16)
    requires
        x + y < 0x10000,
    ensures
        wadd(x, y) == x + y,
{
    vstd::arithmetic::div_mod::lemma_small_mod((x + y) as nat, 0x10000);
}

pub proof fn lemma_wsub_no_wrap(x: u16, y: u16)
    requires
        y <= x,
    ensures
        wsub(x, y) == x - y,
{
    vstd::arithmetic::div_mod::lemma_mod_multiples_vanish(1, x - y, 0x10000);
    vstd::arithmetic::div_mod::lemma_small_mod((x - y) as nat, 0x10000);
}

/// The fixed register a symbolic address operand names, when it names
/// one the generator uses.
pub open spec fn reg_addr(name: Seq<char>) -> Option<u16> {
    if name == "SP"@ {
        Some(0u16)
    } else if name == "LCL"@ {
        Some(1u16)
    } else if name == "ARG"@ {
        Some(2u16)
    } else if name == "THIS"@ {
        Some(3u16)
    } else if name == "THAT"@ {
        Some(4u16)
    } else if name == "R13"@ {
        Some(13u16)
    } else if name == "R14"@ {
        Some(14u16)
    } else {
        None
    }
}

/// One step of the machine on one emitted line. Lines outside the
/// jump-free subset the generator emits (jumps, label anchors, unknown
/// symbols) have no step.
pub open spec fn step(s: MachineState, line: Seq<char>) -> Option<MachineState> {
    if line.len() >= 1 && line[0] == '@' {
        let op = line.drop_first();
        match parse_u16(op) {
            Some(v) => Some(MachineState { a: v, ..s }),
            None => match reg_addr(op) {
                Some(r) => Some(MachineState { a: r, ..s }),
                None => None,
            },
        }
    } else if line == "D=A"@ {
        Some(MachineState { d: s.a, ..s })
    } else if line == "D=M"@ {
        Some(MachineState { d: s.mem[s.a as int], ..s })
    } else if line == "D=M+1"@ {
        Some(MachineState { d: wadd(s.mem[s.a as int], 1), ..s })
    } else if line == "D=D+M"@ {
        Some(MachineState { d: wadd(s.d, s.mem[s.a as int]), ..s })
    } else if line == "D=D-A"@ {
        Some(MachineState { d: wsub(s.d, s.a), ..s })
    } else if line == "D=M-D"@ {
        Some(MachineState { d: wsub(s.mem[s.a as int], s.d), ..s })
    } else if line == "A=M"@ {
        Some(MachineState { a: s.mem[s.a as int], ..s })
    } else if line == "A=D+M"@ {
        Some(MachineState { a: wadd(s.d, s.mem[s.a as int]), ..s })
    } else if line == "A=D-A"@ {
        Some(MachineState { a: wsub(s.d, s.a), ..s })
    } else if line == "M=D"@ {
        Some(MachineState { mem: s.mem.update(s.a as int, s.d), ..s })
    } else if line == "M=0"@ {
        Some(MachineState { mem: s.mem.update(s.a as int, 0), ..s })
    } else if line == "M=-1"@ {
        Some(MachineState { mem: s.mem.update(s.a as int, 0xFFFF), ..s })
    } else if line == "M=M+1"@ {
        Some(MachineState { mem: s.mem.update(s.a as int, wadd(s.mem[s.a as int], 1)), ..s })
    } else if line == "M=M-1"@ {
        Some(MachineState { mem: s.mem.update(s.a as int, wsub(s.mem[s.a as int], 1)), ..s })
    } else if line == "M=D+M"@ {
        Some(MachineState { mem: s.mem.update(s.a as int, wadd(s.d, s.mem[s.a as int])), ..s })
    } else if line == "M=M-D"@ {
        Some(MachineState { mem: s.mem.update(s.a as int, wsub(s.mem[s.a as int], s.d)), ..s })
    } else if line == "M=-M"@ {
        Some(MachineState { mem: s.mem.update(s.a as int, wsub(0, s.mem[s.a as int])), ..s })
    } else if line == "M=!M"@ {
        Some(MachineState { mem: s.mem.update(s.a as int, (0xFFFFu16 - s.mem[s.a as int]) as u16), ..s })
    } else if line == "M=D&M"@ {
        Some(MachineState { mem: s.mem.update(s.a as int, s.d & s.mem[s.a as int]), ..s })
    } else if line == "M=D|M"@ {
        Some(MachineState { mem: s.mem.update(s.a as int, s.d | s.mem[s.a as int]), ..s })
    } else {
        None
    }
}

/// A straight-line run: each line steps in order; a line without a step
/// aborts the run.
pub open spec fn run(s: MachineState, lines: Seq<Seq<char>>) -> Option<MachineState>
    decreases lines.len(),
{
    if lines.len() == 0 {
        Some(s)
    } else {
        match step(s, lines[0]) {
            None => None,
            Some(s1) => run(s1, lines.drop_first()),
        }
    }
}

/// Running a concatenation runs the parts in order.
pub proof fn lemma_run_append(s: MachineState, a: Seq<Seq<char>>, b: Seq<Seq<char>>)
    ensures
        run(s, a + b) == (match run(s, a) {
            None => None,
            Some(s1) => run(s1, b),
        }),
    decreases a.len(),
{
    if a.len() == 0 {
        assert(a + b =~= b);
    } else {
        assert((a + b)[0] == a[0]);
        match step(s, a[0]) {
            None => {},
            Some(s1) => {
                lemma_run_append(s1, a.drop_first(), b);
                assert((a + b).drop_first() =~= a.drop_first() + b);
            },
        }
    }
}

/// A decimal address operand reads back as its value.
pub proof fn lemma_parse_dec(v: u16)
    ensures
        parse_u16(dec_str(v as nat)) == Some(v),
{
    lemma_dec_str_len(v as nat);
    lemma_dec_str_digits(v as nat);
    lemma_dec_str_val(v as nat);
    let d = dec_str(v as nat);
    assert(is_digit(d[0]));
    assert(d[0] != '+') by {
        assert('+' as u32 == 43);
    }
}

/// Stepping an `@` line with a decimal operand loads the value.
pub proof fn lemma_step_at_number(s: MachineState, v: u16)
    ensures
        step(s, "@"@ + dec_str(v as nat)) == Some(MachineState { a: v, ..s }),
{
    reveal_strlit("@");
    let line = "@"@ + dec_str(v as nat);
    lemma_dec_str_len(v as nat);
    assert(line[0] == '@');
    assert(line.drop_first() =~= dec_str(v as nat));
    lemma_parse_dec(v);
}

/// Stepping the line `@SP` addresses the stack pointer.
pub proof fn lemma_step_at_sp(s: MachineState)
    ensures
        step(s, "@SP"@) == Some(MachineState { a: 0, ..s }),
{
    reveal_strlit("@SP");
    reveal_strlit("SP");
    let name = "@SP"@.drop_first();
    assert(name =~= "SP"@);
    assert(!is_digit(name[0]) && name[0] != '+') by {
        assert('S' as u32 == 83);
    }
    assert(!all_digits(name));
    assert(parse_u16(name) is None);
}

/// Stepping the line `@LCL` addresses the local base pointer.
pub proof fn lemma_step_at_lcl(s: MachineState)
    ensures
        step(s, "@LCL"@) == Some(MachineState { a: 1, ..s }),
{
    reveal_strlit("@LCL");
    reveal_strlit("LCL");
    reveal_strlit("SP");
    let name = "@LCL"@.drop_first();
    assert(name =~= "LCL"@);
    assert(!is_digit(name[0]) && name[0] != '+') by {
        assert('L' as u32 == 76);
    }
    assert(!all_digits(name));
    assert(parse_u16(name) is None);
    assert(name != "SP"@);
}

/// Stepping the line `@ARG` addresses the argument base pointer.
pub proof fn lemma_step_at_arg(s: MachineState)
    ensures
        step(s, "@ARG"@) == Some(MachineState { a: 2, ..s }),
{
    reveal_strlit("@ARG");
    reveal_strlit("ARG");
    reveal_strlit("SP");
    reveal_strlit("LCL");
    let name = "@ARG"@.drop_first();
    assert(name =~= "ARG"@);
    assert(!is_digit(name[0]) && name[0] != '+') by {
        assert('A' as u32 == 65);
    }
    assert(!all_digits(name));
    assert(parse_u16(name) is None);
    assert(name != "SP"@ && name != "LCL"@);
}

/// Stepping the line `@THIS` addresses the this base pointer.
pub proof fn lemma_step_at_this(s: MachineState)
    ensures
        step(s, "@THIS"@) == Some(MachineState { a: 3, ..s }),
{
    reveal_strlit("@THIS");
    reveal_strlit("THIS");
    reveal_strlit("SP");
    reveal_strlit("LCL");
    reveal_strlit("ARG");
    let name = "@THIS"@.drop_first();
    assert(name =~= "THIS"@);
    assert(!is_digit(name[0]) && name[0] != '+') by {
        assert('T' as u32 == 84);
    }
    assert(!all_digits(name));
    assert(parse_u16(name) is None);
    assert(name != "SP"@ && name != "LCL"@ && name != "ARG"@);
}

/// Stepping the line `@THAT` addresses the that base pointer.
pub proof fn lemma_step_at_that(s: MachineState)
    ensures
        step(s, "@THAT"@) == Some(MachineState { a: 4, ..s }),
{
    reveal_strlit("@THAT");
    reveal_strlit("THAT");
    reveal_strlit("SP");
    reveal_strlit("LCL");
    reveal_strlit("ARG");
    reveal_strlit("THIS");
    let name = "@THAT"@.drop_first();
    assert(name =~= "THAT"@);
    assert(!is_digit(name[0]) && name[0] != '+') by {
        assert('T' as u32 == 84);
    }
    assert(!all_digits(name));
    assert(parse_u16(name) is None);
    assert(name[2] == 'A' && "THIS"@[2] == 'I');
    assert(name != "SP"@ && name != "LCL"@ && name != "ARG"@ && name != "THIS"@);
}

/// Stepping the line `@R13` addresses the first scratch register.
pub proof fn lemma_step_at_r13(s: MachineState)
    ensures
        step(s, "@R13"@) == Some(MachineState { a: 13, ..s }),
{
    reveal_strlit("@R13");
    reveal_strlit("R13");
    reveal_strlit("SP");
    reveal_strlit("LCL");
    reveal_strlit("ARG");
    reveal_strlit("THIS");
    reveal_strlit("THAT");
    let name = "@R13"@.drop_first();
    assert(name =~= "R13"@);
    assert(!is_digit(name[0]) && name[0] != '+') by {
        assert('R' as u32 == 82);
    }
    assert(!all_digits(name));
    assert(parse_u16(name) is None);
    assert(name != "SP"@ && name != "LCL"@ && name != "ARG"@ && name != "THIS"@ && name
        != "THAT"@);
}

/// Stepping the line `@R14` addresses the second scratch register.
pub proof fn lemma_step_at_r14(s: MachineState)
    ensures
        step(s, "@R14"@) == Some(MachineState { a: 14, ..s }),
{
    reveal_strlit("@R14");
    reveal_strlit("R14");
    reveal_strlit("SP");
    reveal_strlit("LCL");
    reveal_strlit("ARG");
    reveal_strlit("THIS");
    reveal_strlit("THAT");
    reveal_strlit("R13");
    let name = "@R14"@.drop_first();
    assert(name =~= "R14"@);
    assert(!is_digit(name[0]) && name[0] != '+') by {
        assert('R' as u32 == 82);
    }
    assert(!all_digits(name));
    assert(parse_u16(name) is None);
    assert(name[2] == '4' && "R13"@[2] == '3');
    assert(name != "SP"@ && name != "LCL"@ && name != "ARG"@ && name != "THIS"@ && name != "THAT"@
        && name != "R13"@);
}

/// Stepping the line `D=A`.
pub proof fn lemma_step_d_eq_a(s: MachineState)
    ensures
        step(s, "D=A"@) == Some(MachineState { d: s.a, ..s }),
{
    reveal_strlit("D=A");
    reveal_strlit("D=M");
    reveal_strlit("D=M+1");
    reveal_strlit("D=D+M");
    reveal_strlit("D=D-A");
    reveal_strlit("D=M-D");
    reveal_strlit("A=M");
    reveal_strlit("A=D+M");
    reveal_strlit("A=D-A");
    reveal_strlit("M=D");
    reveal_strlit("M=0");
    reveal_strlit("M=-1");
    reveal_strlit("M=M+1");
    reveal_strlit("M=M-1");
    reveal_strlit("M=D+M");
    reveal_strlit("M=M-D");
    reveal_strlit("M=-M");
    reveal_strlit("M=!M");
    reveal_strlit("M=D&M");
    reveal_strlit("M=D|M");
    assert("D=A"@[0] != '@') by {
        assert('@' as u32 == 64);
    }
}

/// Stepping the line `D=M`.
pub proof fn lemma_step_d_eq_m(s: MachineState)
    ensures
        step(s, "D=M"@) == Some(MachineState { d: s.mem[s.a as int], ..s }),
{
    reveal_strlit("D=A");
    reveal_strlit("D=M");
    reveal_strlit("D=M+1");
    reveal_strlit("D=D+M");
    reveal_strlit("D=D-A");
    reveal_strlit("D=M-D");
    reveal_strlit("A=M");
    reveal_strlit("A=D+M");
    reveal_strlit("A=D-A");
    reveal_strlit("M=D");
    reveal_strlit("M=0");
    reveal_strlit("M=-1");
    reveal_strlit("M=M+1");
    reveal_strlit("M=M-1");
    reveal_strlit("M=D+M");
    reveal_strlit("M=M-D");
    reveal_strlit("M=-M");
    reveal_strlit("M=!M");
    reveal_strlit("M=D&M");
    reveal_strlit("M=D|M");
    assert("D=M"@[0] != '@') by {
        assert('@' as u32 == 64);
    }
    assert("D=M"@[2] == 'M' && "D=A"@[2] == 'A');
}

/// Stepping the line `D=M+1`.
pub proof fn lemma_step_d_eq_m_inc(s: MachineState)
    ensures
        step(s, "D=M+1"@) == Some(MachineState { d: wadd(s.mem[s.a as int], 1), ..s }),
{
    reveal_strlit("D=A");
    reveal_strlit("D=M");
    reveal_strlit("D=M+1");
    reveal_strlit("D=D+M");
    reveal_strlit("D=D-A");
    reveal_strlit("D=M-D");
    reveal_strlit("A=M");
    reveal_strlit("A=D+M");
    reveal_strlit("A=D-A");
    reveal_strlit("M=D");
    reveal_strlit("M=0");
    reveal_strlit("M=-1");
    reveal_strlit("M=M+1");
    reveal_strlit("M=M-1");
    reveal_strlit("M=D+M");
    reveal_strlit("M=M-D");
    reveal_strlit("M=-M");
    reveal_strlit("M=!M");
    reveal_strlit("M=D&M");
    reveal_strlit("M=D|M");
    assert("D=M+1"@[0] != '@') by {
        assert('@' as u32 == 64);
    }
    assert("D=M+1"@.len() == 5 && "D=A"@.len() == 3);
    assert("D=M+1"@.len() == 5 && "D=M"@.len() == 3);
}

/// Stepping the line `D=D+M`.
pub proof fn lemma_step_d_plus_m(s: MachineState)
    ensures
        step(s, "D=D+M"@) == Some(MachineState { d: wadd(s.d, s.mem[s.a as int]), ..s }),
{
    reveal_strlit("D=A");
    reveal_strlit("D=M");
    reveal_strlit("D=M+1");
    reveal_strlit("D=D+M");
    reveal_strlit("D=D-A");
    reveal_strlit("D=M-D");
    reveal_strlit("A=M");
    reveal_strlit("A=D+M");
    reveal_strlit("A=D-A");
    reveal_strlit("M=D");
    reveal_strlit("M=0");
    reveal_strlit("M=-1");
    reveal_strlit("M=M+1");
    reveal_strlit("M=M-1");
    reveal_strlit("M=D+M");
    reveal_strlit("M=M-D");
    reveal_strlit("M=-M");
    reveal_strlit("M=!M");
    reveal_strlit("M=D&M");
    reveal_strlit("M=D|M");
    assert("D=D+M"@[0] != '@') by {
        assert('@' as u32 == 64);
    }
    assert("D=D+M"@.len() == 5 && "D=A"@.len() == 3);
    assert("D=D+M"@.len() == 5 && "D=M"@.len() == 3);
    assert("D=D+M"@[2] == 'D' && "D=M+1"@[2] == 'M');
}

/// Stepping the line `D=D-A`.
pub proof fn lemma_step_d_minus_a(s: MachineState)
    ensures
        step(s, "D=D-A"@) == Some(MachineState { d: wsub(s.d, s.a), ..s }),
{
    reveal_strlit("D=A");
    reveal_strlit("D=M");
    reveal_strlit("D=M+1");
    reveal_strlit("D=D+M");
    reveal_strlit("D=D-A");
    reveal_strlit("D=M-D");
    reveal_strlit("A=M");
    reveal_strlit("A=D+M");
    reveal_strlit("A=D-A");
    reveal_strlit("M=D");
    reveal_strlit("M=0");
    reveal_strlit("M=-1");
    reveal_strlit("M=M+1");
    reveal_strlit("M=M-1");
    reveal_strlit("M=D+M");
    reveal_strlit("M=M-D");
    reveal_strlit("M=-M");
    reveal_strlit("M=!M");
    reveal_strlit("M=D&M");
    reveal_strlit("M=D|M");
    assert("D=D-A"@[0] != '@') by {
        assert('@' as u32 == 64);
    }
    assert("D=D-A"@.len() == 5 && "D=A"@.len() == 3);
    assert("D=D-A"@.len() == 5 && "D=M"@.len() == 3);
    assert("D=D-A"@[2] == 'D' && "D=M+1"@[2] == 'M');
    assert("D=D-A"@[3] == '-' && "D=D+M"@[3] == '+');
}

/// Stepping the line `A=M`.
pub proof fn lemma_step_a_eq_m(s: MachineState)
    ensures
        step(s, "A=M"@) == Some(MachineState { a: s.mem[s.a as int], ..s }),
{
    reveal_strlit("D=A");
    reveal_strlit("D=M");
    reveal_strlit("D=M+1");
    reveal_strlit("D=D+M");
    reveal_strlit("D=D-A");
    reveal_strlit("D=M-D");
    reveal_strlit("A=M");
    reveal_strlit("A=D+M");
    reveal_strlit("A=D-A");
    reveal_strlit("M=D");
    reveal_strlit("M=0");
    reveal_strlit("M=-1");
    reveal_strlit("M=M+1");
    reveal_strlit("M=M-1");
    reveal_strlit("M=D+M");
    reveal_strlit("M=M-D");
    reveal_strlit("M=-M");
    reveal_strlit("M=!M");
    reveal_strlit("M=D&M");
    reveal_strlit("M=D|M");
    assert("A=M"@[0] != '@') by {
        assert('@' as u32 == 64);
    }
    assert("A=M"@[0] == 'A' && "D=A"@[0] == 'D');
    assert("A=M"@[0] == 'A' && "D=M"@[0] == 'D');
    assert("A=M"@.len() == 3 && "D=M+1"@.len() == 5);
    assert("A=M"@.len() == 3 && "D=D+M"@.len() == 5);
    assert("A=M"@.len() == 3 && "D=D-A"@.len() == 5);
    assert("A=M"@.len() == 3 && "D=M-D"@.len() == 5);
}

/// Stepping the line `A=D-A`.
pub proof fn lemma_step_a_d_minus_a(s: MachineState)
    ensures
        step(s, "A=D-A"@) == Some(MachineState { a: wsub(s.d, s.a), ..s }),
{
    reveal_strlit("D=A");
    reveal_strlit("D=M");
    reveal_strlit("D=M+1");
    reveal_strlit("D=D+M");
    reveal_strlit("D=D-A");
    reveal_strlit("D=M-D");
    reveal_strlit("A=M");
    reveal_strlit("A=D+M");
    reveal_strlit("A=D-A");
    reveal_strlit("M=D");
    reveal_strlit("M=0");
    reveal_strlit("M=-1");
    reveal_strlit("M=M+1");
    reveal_strlit("M=M-1");
    reveal_strlit("M=D+M");
    reveal_strlit("M=M-D");
    reveal_strlit("M=-M");
    reveal_strlit("M=!M");
    reveal_strlit("M=D&M");
    reveal_strlit("M=D|M");
    assert("A=D-A"@[0] != '@') by {
        assert('@' as u32 == 64);
    }
    assert("A=D-A"@.len() == 5 && "D=A"@.len() == 3);
    assert("A=D-A"@.len() == 5 && "D=M"@.len() == 3);
    assert("A=D-A"@[0] == 'A' && "D=M+1"@[0] == 'D');
    assert("A=D-A"@[0] == 'A' && "D=D+M"@[0] == 'D');
    assert("A=D-A"@[0] == 'A' && "D=D-A"@[0] == 'D');
    assert("A=D-A"@[0] == 'A' && "D=M-D"@[0] == 'D');
    assert("A=D-A"@.len() == 5 && "A=M"@.len() == 3);
    assert("A=D-A"@[3] == '-' && "A=D+M"@[3] == '+');
}

/// Stepping the line `M=D`.
pub proof fn lemma_step_m_eq_d(s: MachineState)
    ensures
        step(s, "M=D"@) == Some(MachineState { mem: s.mem.update(s.a as int, s.d), ..s }),
{
    reveal_strlit("D=A");
    reveal_strlit("D=M");
    reveal_strlit("D=M+1");
    reveal_strlit("D=D+M");
    reveal_strlit("D=D-A");
    reveal_strlit("D=M-D");
    reveal_strlit("A=M");
    reveal_strlit("A=D+M");
    reveal_strlit("A=D-A");
    reveal_strlit("M=D");
    reveal_strlit("M=0");
    reveal_strlit("M=-1");
    reveal_strlit("M=M+1");
    reveal_strlit("M=M-1");
    reveal_strlit("M=D+M");
    reveal_strlit("M=M-D");
    reveal_strlit("M=-M");
    reveal_strlit("M=!M");
    reveal_strlit("M=D&M");
    reveal_strlit("M=D|M");
    assert("M=D"@[0] != '@') by {
        assert('@' as u32 == 64);
    }
    assert("M=D"@[0] == 'M' && "D=A"@[0] == 'D');
    assert("M=D"@[0] == 'M' && "D=M"@[0] == 'D');
    assert("M=D"@.len() == 3 && "D=M+1"@.len() == 5);
    assert("M=D"@.len() == 3 && "D=D+M"@.len() == 5);
    assert("M=D"@.len() == 3 && "D=D-A"@.len() == 5);
    assert("M=D"@.len() == 3 && "D=M-D"@.len() == 5);
    assert("M=D"@[0] == 'M' && "A=M"@[0] == 'A');
    assert("M=D"@.len() == 3 && "A=D+M"@.len() == 5);
    assert("M=D"@.len() == 3 && "A=D-A"@.len() == 5);
}

/// Stepping the line `M=M+1`.
pub proof fn lemma_step_m_inc(s: MachineState)
    ensures
        step(s, "M=M+1"@) == Some(MachineState { mem: s.mem.update(s.a as int, wadd(s.mem[s.a as int], 1)), ..s }),
{
    reveal_strlit("D=A");
    reveal_strlit("D=M");
    reveal_strlit("D=M+1");
    reveal_strlit("D=D+M");
    reveal_strlit("D=D-A");
    reveal_strlit("D=M-D");
    reveal_strlit("A=M");
    reveal_strlit("A=D+M");
    reveal_strlit("A=D-A");
    reveal_strlit("M=D");
    reveal_strlit("M=0");
    reveal_strlit("M=-1");
    reveal_strlit("M=M+1");
    reveal_strlit("M=M-1");
    reveal_strlit("M=D+M");
    reveal_strlit("M=M-D");
    reveal_strlit("M=-M");
    reveal_strlit("M=!M");
    reveal_strlit("M=D&M");
    reveal_strlit("M=D|M");
    assert("M=M+1"@[0] != '@') by {
        assert('@' as u32 == 64);
    }
    assert("M=M+1"@.len() == 5 && "D=A"@.len() == 3);
    assert("M=M+1"@.len() == 5 && "D=M"@.len() == 3);
    assert("M=M+1"@[0] == 'M' && "D=M+1"@[0] == 'D');
    assert("M=M+1"@[0] == 'M' && "D=D+M"@[0] == 'D');
    assert("M=M+1"@[0] == 'M' && "D=D-A"@[0] == 'D');
    assert("M=M+1"@[0] == 'M' && "D=M-D"@[0] == 'D');
    assert("M=M+1"@.len() == 5 && "A=M"@.len() == 3);
    assert("M=M+1"@[0] == 'M' && "A=D+M"@[0] == 'A');
    assert("M=M+1"@[0] == 'M' && "A=D-A"@[0] == 'A');
    assert("M=M+1"@.len() == 5 && "M=D"@.len() == 3);
    assert("M=M+1"@.len() == 5 && "M=0"@.len() == 3);
    assert("M=M+1"@.len() == 5 && "M=-1"@.len() == 4);
}

/// Stepping the line `M=M-1`.
pub proof fn lemma_step_m_dec(s: MachineState)
    ensures
        step(s, "M=M-1"@) == Some(MachineState { mem: s.mem.update(s.a as int, wsub(s.mem[s.a as int], 1)), ..s }),
{
    reveal_strlit("D=A");
    reveal_strlit("D=M");
    reveal_strlit("D=M+1");
    reveal_strlit("D=D+M");
    reveal_strlit("D=D-A");
    reveal_strlit("D=M-D");
    reveal_strlit("A=M");
    reveal_strlit("A=D+M");
    reveal_strlit("A=D-A");
    reveal_strlit("M=D");
    reveal_strlit("M=0");
    reveal_strlit("M=-1");
    reveal_strlit("M=M+1");
    reveal_strlit("M=M-1");
    reveal_strlit("M=D+M");
    reveal_strlit("M=M-D");
    reveal_strlit("M=-M");
    reveal_strlit("M=!M");
    reveal_strlit("M=D&M");
    reveal_strlit("M=D|M");
    assert("M=M-1"@[0] != '@') by {
        assert('@' as u32 == 64);
    }
    assert("M=M-1"@.len() == 5 && "D=A"@.len() == 3);
    assert("M=M-1"@.len() == 5 && "D=M"@.len() == 3);
    assert("M=M-1"@[0] == 'M' && "D=M+1"@[0] == 'D');
    assert("M=M-1"@[0] == 'M' && "D=D+M"@[0] == 'D');
    assert("M=M-1"@[0] == 'M' && "D=D-A"@[0] == 'D');
    assert("M=M-1"@[0] == 'M' && "D=M-D"@[0] == 'D');
    assert("M=M-1"@.len() == 5 && "A=M"@.len() == 3);
    assert("M=M-1"@[0] == 'M' && "A=D+M"@[0] == 'A');
    assert("M=M-1"@[0] == 'M' && "A=D-A"@[0] == 'A');
    assert("M=M-1"@.len() == 5 && "M=D"@.len() == 3);
    assert("M=M-1"@.len() == 5 && "M=0"@.len() == 3);
    assert("M=M-1"@.len() == 5 && "M=-1"@.len() == 4);
    assert("M=M-1"@[3] == '-' && "M=M+1"@[3] == '+');
}

// ---------------------------------------------------------------------------
// Effects of whole emitted blocks
// ---------------------------------------------------------------------------

/// Running the lines of `push constant k` stores `k` at the stack top
/// and advances the stack pointer.
#[verifier::rlimit(100)]
pub proof fn lemma_push_constant_runs(s0: MachineState, k: u16, unit: Seq<char>)
    requires
        wf(s0),
        16 <= s0.mem[0] < 0xFFFF,
    ensures
        run(s0, push_asm(Segment::Constant, k, unit)) == Some(
            MachineState {
                a: 0,
                d: k,
                mem: s0.mem.update(s0.mem[0] as int, k).update(0, (s0.mem[0] + 1) as u16),
            },
        ),
{
    let ls = push_asm(Segment::Constant, k, unit);
    let sp = s0.mem[0];
    assert(((k as u64) as nat) == k as nat);
    let s1 = MachineState { a: k, ..s0 };
    let s2 = MachineState { d: k, ..s1 };
    let s3 = MachineState { a: 0, ..s2 };
    let s4 = MachineState { a: sp, ..s3 };
    let s5 = MachineState { mem: s0.mem.update(sp as int, k), ..s4 };
    let s6 = MachineState { a: 0, ..s5 };
    let s7 = MachineState { mem: s5.mem.update(0, (sp + 1) as u16), ..s6 };
    lemma_step_at_number(s0, k);
    assert(step(s0, ls[0]) == Some(s1));
    lemma_step_d_eq_a(s1);
    assert(step(s1, ls[1]) == Some(s2));
    lemma_step_at_sp(s2);
    assert(step(s2, ls[2]) == Some(s3));
    lemma_step_a_eq_m(s3);
    assert(step(s3, ls[3]) == Some(s4));
    lemma_step_m_eq_d(s4);
    assert(step(s4, ls[4]) == Some(s5));
    lemma_step_at_sp(s5);
    assert(step(s5, ls[5]) == Some(s6));
    lemma_step_m_inc(s6);
    assert(s6.mem[0] == sp);
    lemma_wadd_no_wrap(sp, 1);
    assert(step(s6, ls[6]) == Some(s7));
    let t1 = ls.drop_first();
    let t2 = t1.drop_first();
    let t3 = t2.drop_first();
    let t4 = t3.drop_first();
    let t5 = t4.drop_first();
    let t6 = t5.drop_first();
    let t7 = t6.drop_first();
    assert(t7 =~~= Seq::<Seq<char>>::empty());
    assert(run(s0, ls) == run(s1, t1));
    assert(run(s1, t1) == run(s2, t2));
    assert(run(s2, t2) == run(s3, t3));
    assert(run(s3, t3) == run(s4, t4));
    assert(run(s4, t4) == run(s5, t5));
    assert(run(s5, t5) == run(s6, t6));
    assert(run(s6, t6) == run(s7, t7));
    assert(run(s7, t7) == Some(s7));
}

/// Running the lines of `pop local 0` moves the value below the stack
/// pointer into the first local slot and retreats the stack pointer. The
/// effective address is parked in the first scratch register.
#[verifier::rlimit(100)]
pub proof fn lemma_pop_local0_runs(s0: MachineState, unit: Seq<char>)
    requires
        wf(s0),
        17 <= s0.mem[0],
        16 <= s0.mem[1],
    ensures
        run(s0, pop_asm(Segment::Local, 0, unit)) == Some(
            MachineState {
                a: s0.mem[1],
                d: s0.mem[s0.mem[0] - 1],
                mem: s0.mem.update(13, s0.mem[1]).update(0, (s0.mem[0] - 1) as u16).update(
                    s0.mem[1] as int,
                    s0.mem[s0.mem[0] - 1],
                ),
            },
        ),
{
    let ls = pop_asm(Segment::Local, 0, unit);
    let m = s0.mem;
    let sp = m[0];
    let lcl = m[1];
    let v = m[sp - 1];
    assert(((0u64) as nat) == 0nat);
    let s1 = MachineState { a: 0, ..s0 };
    let s2 = MachineState { d: 0, ..s1 };
    let s3 = MachineState { a: 1, ..s2 };
    let s4 = MachineState { d: lcl, ..s3 };
    let s5 = MachineState { a: 13, ..s4 };
    let s6 = MachineState { mem: m.update(13, lcl), ..s5 };
    let s7 = MachineState { a: 0, ..s6 };
    let s8 = MachineState { mem: s6.mem.update(0, (sp - 1) as u16), ..s7 };
    let s9 = MachineState { a: (sp - 1) as u16, ..s8 };
    let s10 = MachineState { d: v, ..s9 };
    let s11 = MachineState { a: 13, ..s10 };
    let s12 = MachineState { a: lcl, ..s11 };
    let s13 = MachineState { mem: s8.mem.update(lcl as int, v), ..s12 };
    lemma_step_at_number(s0, 0);
    assert(step(s0, ls[0]) == Some(s1));
    lemma_step_d_eq_a(s1);
    assert(step(s1, ls[1]) == Some(s2));
    lemma_step_at_lcl(s2);
    assert(step(s2, ls[2]) == Some(s3));
    lemma_step_d_plus_m(s3);
    lemma_wadd_no_wrap(0, lcl);
    assert(step(s3, ls[3]) == Some(s4));
    lemma_step_at_r13(s4);
    assert(step(s4, ls[4]) == Some(s5));
    lemma_step_m_eq_d(s5);
    assert(step(s5, ls[5]) == Some(s6));
    lemma_step_at_sp(s6);
    assert(step(s6, ls[6]) == Some(s7));
    lemma_step_m_dec(s7);
    assert(s7.mem[0] == sp);
    lemma_wsub_no_wrap(sp, 1);
    assert(step(s7, ls[7]) == Some(s8));
    lemma_step_a_eq_m(s8);
    assert(s8.mem[0] == sp - 1);
    assert(step(s8, ls[8]) == Some(s9));
    lemma_step_d_eq_m(s9);
    assert(s9.mem[sp - 1] == v);
    assert(step(s9, ls[9]) == Some(s10));
    lemma_step_at_r13(s10);
    assert(step(s10, ls[10]) == Some(s11));
    lemma_step_a_eq_m(s11);
    assert(s11.mem[13] == lcl);
    assert(step(s11, ls[11]) == Some(s12));
    lemma_step_m_eq_d(s12);
    assert(step(s12, ls[12]) == Some(s13));
    let t1 = ls.drop_first();
    let t2 = t1.drop_first();
    let t3 = t2.drop_first();
    let t4 = t3.drop_first();
    let t5 = t4.drop_first();
    let t6 = t5.drop_first();
    let t7 = t6.drop_first();
    let t8 = t7.drop_first();
    let t9 = t8.drop_first();
    let t10 = t9.drop_first();
    let t11 = t10.drop_first();
    let t12 = t11.drop_first();
    let t13 = t12.drop_first();
    assert(t13 =~~= Seq::<Seq<char>>::empty());
    assert(run(s0, ls) == run(s1, t1));
    assert(run(s1, t1) == run(s2, t2));
    assert(run(s2, t2) == run(s3, t3));
    assert(run(s3, t3) == run(s4, t4));
    assert(run(s4, t4) == run(s5, t5));
    assert(run(s5, t5) == run(s6, t6));
    assert(run(s6, t6) == run(s7, t7));
    assert(run(s7, t7) == run(s8, t8));
    assert(run(s8, t8) == run(s9, t9));
    assert(run(s9, t9) == run(s10, t10));
    assert(run(s10, t10) == run(s11, t11));
    assert(run(s11, t11) == run(s12, t12));
    assert(run(s12, t12) == run(s13, t13));
    assert(run(s13, t13) == Some(s13));
}

/// Stepping the line `@5` (the frame's fixed size) loads five.
pub proof fn lemma_step_at_five(s: MachineState)
    ensures
        step(s, "@5"@) == Some(MachineState { a: 5, ..s }),
{
    reveal_strlit("@5");
    reveal_strlit("5");
    let name = "@5"@.drop_first();
    assert(name =~= "5"@);
    assert('5' as u32 == 53 && '+' as u32 == 43);
    assert(name.len() == 1 && name[0] == '5');
    assert(all_digits(name));
    assert(name.drop_last() =~= Seq::<char>::empty());
    assert(dec_val(Seq::<char>::empty()) == 0);
    assert(name.last() == '5');
    assert(dec_val(name) == 5);
    assert(parse_u16(name) == Some(5u16));
}

/// Running the push of the data register appends it to the stack.
pub proof fn lemma_push_d_runs(s: MachineState)
    requires
        wf(s),
        16 <= s.mem[0] < 0xFFFF,
    ensures
        run(s, push_d_asm()) == Some(
            MachineState {
                a: 0,
                mem: s.mem.update(s.mem[0] as int, s.d).update(0, (s.mem[0] + 1) as u16),
                ..s
            },
        ),
{
    let ls = push_d_asm();
    let sp = s.mem[0];
    let s1 = MachineState { a: 0, ..s };
    let s2 = MachineState { a: sp, ..s1 };
    let s3 = MachineState { mem: s.mem.update(sp as int, s.d), ..s2 };
    let s4 = MachineState { a: 0, ..s3 };
    let s5 = MachineState { mem: s3.mem.update(0, (sp + 1) as u16), ..s4 };
    lemma_step_at_sp(s);
    assert(step(s, ls[0]) == Some(s1));
    lemma_step_a_eq_m(s1);
    assert(step(s1, ls[1]) == Some(s2));
    lemma_step_m_eq_d(s2);
    assert(step(s2, ls[2]) == Some(s3));
    lemma_step_at_sp(s3);
    assert(step(s3, ls[3]) == Some(s4));
    lemma_step_m_inc(s4);
    assert(s4.mem[0] == sp);
    lemma_wadd_no_wrap(sp, 1);
    assert(step(s4, ls[4]) == Some(s5));
    let t1 = ls.drop_first();
    let t2 = t1.drop_first();
    let t3 = t2.drop_first();
    let t4 = t3.drop_first();
    let t5 = t4.drop_first();
    assert(t5 =~~= Seq::<Seq<char>>::empty());
    assert(run(s, ls) == run(s1, t1));
    assert(run(s1, t1) == run(s2, t2));
    assert(run(s2, t2) == run(s3, t3));
    assert(run(s3, t3) == run(s4, t4));
    assert(run(s4, t4) == run(s5, t5));
}

/// Reading the local base pointer into the data register.
pub proof fn lemma_read_lcl_runs(s: MachineState)
    ensures
        run(s, seq!["@LCL"@, "D=M"@]) == Some(MachineState { a: 1, d: s.mem[1], ..s }),
{
    let ls = seq!["@LCL"@, "D=M"@];
    let s1 = MachineState { a: 1, ..s };
    let s2 = MachineState { d: s.mem[1], ..s1 };
    lemma_step_at_lcl(s);
    assert(step(s, ls[0]) == Some(s1));
    lemma_step_d_eq_m(s1);
    assert(step(s1, ls[1]) == Some(s2));
    let t1 = ls.drop_first();
    let t2 = t1.drop_first();
    assert(t2 =~~= Seq::<Seq<char>>::empty());
    assert(run(s, ls) == run(s1, t1));
    assert(run(s1, t1) == run(s2, t2));
}

/// Reading the argument base pointer into the data register.
pub proof fn lemma_read_arg_runs(s: MachineState)
    ensures
        run(s, seq!["@ARG"@, "D=M"@]) == Some(MachineState { a: 2, d: s.mem[2], ..s }),
{
    let ls = seq!["@ARG"@, "D=M"@];
    let s1 = MachineState { a: 2, ..s };
    let s2 = MachineState { d: s.mem[2], ..s1 };
    lemma_step_at_arg(s);
    assert(step(s, ls[0]) == Some(s1));
    lemma_step_d_eq_m(s1);
    assert(step(s1, ls[1]) == Some(s2));
    let t1 = ls.drop_first();
    let t2 = t1.drop_first();
    assert(t2 =~~= Seq::<Seq<char>>::empty());
    assert(run(s, ls) == run(s1, t1));
    assert(run(s1, t1) == run(s2, t2));
}

/// Reading the this base pointer into the data register.
pub proof fn lemma_read_this_runs(s: MachineState)
    ensures
        run(s, seq!["@THIS"@, "D=M"@]) == Some(MachineState { a: 3, d: s.mem[3], ..s }),
{
    let ls = seq!["@THIS"@, "D=M"@];
    let s1 = MachineState { a: 3, ..s };
    let s2 = MachineState { d: s.mem[3], ..s1 };
    lemma_step_at_this(s);
    assert(step(s, ls[0]) == Some(s1));
    lemma_step_d_eq_m(s1);
    assert(step(s1, ls[1]) == Some(s2));
    let t1 = ls.drop_first();
    let t2 = t1.drop_first();
    assert(t2 =~~= Seq::<Seq<char>>::empty());
    assert(run(s, ls) == run(s1, t1));
    assert(run(s1, t1) == run(s2, t2));
}

/// Reading the that base pointer into the data register.
pub proof fn lemma_read_that_runs(s: MachineState)
    ensures
        run(s, seq!["@THAT"@, "D=M"@]) == Some(MachineState { a: 4, d: s.mem[4], ..s }),
{
    let ls = seq!["@THAT"@, "D=M"@];
    let s1 = MachineState { a: 4, ..s };
    let s2 = MachineState { d: s.mem[4], ..s1 };
    lemma_step_at_that(s);
    assert(step(s, ls[0]) == Some(s1));
    lemma_step_d_eq_m(s1);
    assert(step(s1, ls[1]) == Some(s2));
    let t1 = ls.drop_first();
    let t2 = t1.drop_first();
    assert(t2 =~~= Seq::<Seq<char>>::empty());
    assert(run(s, ls) == run(s1, t1));
    assert(run(s1, t1) == run(s2, t2));
}

/// The frame-construction part of the call protocol: everything between
/// loading the return address and transferring control.
pub open spec fn call_frame_lines(n: u16) -> Seq<Seq<char>> {
    push_d_asm() + (seq!["@LCL"@, "D=M"@] + (push_d_asm() + (seq!["@ARG"@, "D=M"@] + (push_d_asm()
        + (seq!["@THIS"@, "D=M"@] + (push_d_asm() + (seq!["@THAT"@, "D=M"@] + (push_d_asm() + seq![
        "@SP"@,
        "D=M"@,
        "@5"@,
        "D=D-A"@,
        "@"@ + dec_str(n as nat),
        "D=D-A"@,
        "@ARG"@,
        "M=D"@,
        "@SP"@,
        "D=M"@,
        "@LCL"@,
        "M=D"@,
    ]))))))))
}

/// The call protocol's emitted lines hold exactly the frame construction
/// between the return-address load and the control transfer.
#[verifier::rlimit(100)]
pub proof fn lemma_call_frame_extraction(f: Seq<char>, n: u16, c: u64)
    ensures
        call_asm(f, n, c).subrange(2, 47) == call_frame_lines(n),
{
    assert(((n as u64) as nat) == n as nat);
    assert(call_asm(f, n, c).subrange(2, 47) =~~= call_frame_lines(n));
}

/// Running the pointer-repositioning tail of the call protocol: with the
/// five frame words already pushed, the argument pointer becomes
/// `stack pointer - 5 - argCount` and the local pointer becomes the
/// stack pointer.
#[verifier::rlimit(100)]
pub proof fn lemma_call_reposition_runs(s: MachineState, n: u16)
    requires
        wf(s),
        n + 5 <= s.mem[0],
    ensures
        run(
            s,
            seq![
                "@SP"@,
                "D=M"@,
                "@5"@,
                "D=D-A"@,
                "@"@ + dec_str(n as nat),
                "D=D-A"@,
                "@ARG"@,
                "M=D"@,
                "@SP"@,
                "D=M"@,
                "@LCL"@,
                "M=D"@,
            ],
        ) == Some(
            MachineState {
                a: 1,
                d: s.mem[0],
                mem: s.mem.update(2, (s.mem[0] - 5 - n) as u16).update(1, s.mem[0]),
            },
        ),
{
    let spv = s.mem[0];
    let tail = seq![
        "@SP"@,
        "D=M"@,
        "@5"@,
        "D=D-A"@,
        "@"@ + dec_str(n as nat),
        "D=D-A"@,
        "@ARG"@,
        "M=D"@,
        "@SP"@,
        "D=M"@,
        "@LCL"@,
        "M=D"@,
    ];
    let t01 = MachineState { a: 0, ..s };
    let t02 = MachineState { d: spv, ..t01 };
    let t03 = MachineState { a: 5, ..t02 };
    let t04 = MachineState { d: (spv - 5) as u16, ..t03 };
    let t05 = MachineState { a: n, ..t04 };
    let t06 = MachineState { d: (spv - 5 - n) as u16, ..t05 };
    let t07 = MachineState { a: 2, ..t06 };
    let t08 = MachineState { mem: s.mem.update(2, (spv - 5 - n) as u16), ..t07 };
    let t09 = MachineState { a: 0, ..t08 };
    let t10 = MachineState { d: spv, ..t09 };
    let t11 = MachineState { a: 1, ..t10 };
    let t12 = MachineState { mem: t08.mem.update(1, spv), ..t11 };
    lemma_step_at_sp(s);
    assert(step(s, tail[0]) == Some(t01));
    lemma_step_d_eq_m(t01);
    assert(step(t01, tail[1]) == Some(t02));
    lemma_step_at_five(t02);
    assert(step(t02, tail[2]) == Some(t03));
    lemma_step_d_minus_a(t03);
    lemma_wsub_no_wrap(spv, 5);
    assert(step(t03, tail[3]) == Some(t04));
    lemma_step_at_number(t04, n);
    assert(step(t04, tail[4]) == Some(t05));
    lemma_step_d_minus_a(t05);
    lemma_wsub_no_wrap((spv - 5) as u16, n);
    assert(step(t05, tail[5]) == Some(t06));
    lemma_step_at_arg(t06);
    assert(step(t06, tail[6]) == Some(t07));
    lemma_step_m_eq_d(t07);
    assert(step(t07, tail[7]) == Some(t08));
    lemma_step_at_sp(t08);
    assert(step(t08, tail[8]) == Some(t09));
    lemma_step_d_eq_m(t09);
    assert(t09.mem[0] == spv);
    assert(step(t09, tail[9]) == Some(t10));
    lemma_step_at_lcl(t10);
    assert(step(t10, tail[10]) == Some(t11));
    lemma_step_m_eq_d(t11);
    assert(step(t11, tail[11]) == Some(t12));
    let u1 = tail.drop_first();
    let u2 = u1.drop_first();
    let u3 = u2.drop_first();
    let u4 = u3.drop_first();
    let u5 = u4.drop_first();
    let u6 = u5.drop_first();
    let u7 = u6.drop_first();
    let u8 = u7.drop_first();
    let u9 = u8.drop_first();
    let u10 = u9.drop_first();
    let u11 = u10.drop_first();
    let u12 = u11.drop_first();
    assert(u12 =~~= Seq::<Seq<char>>::empty());
    assert(run(s, tail) == run(t01, u1));
    assert(run(t01, u1) == run(t02, u2));
    assert(run(t02, u2) == run(t03, u3));
    assert(run(t03, u3) == run(t04, u4));
    assert(run(t04, u4) == run(t05, u5));
    assert(run(t05, u5) == run(t06, u6));
    assert(run(t06, u6) == run(t07, u7));
    assert(run(t07, u7) == run(t08, u8));
    assert(run(t08, u8) == run(t09, u9));
    assert(run(t09, u9) == run(t10, u10));
    assert(run(t10, u10) == run(t11, u11));
    assert(run(t12, u12) == Some(t12));
    assert(run(t11, u11) == Some(t12));
}

/// Running the frame construction: the return address in the data
/// register and the four base pointers are pushed in order, the argument
/// pointer is repositioned to `stack pointer - 5 - argCount`, and the
/// local pointer to the new stack pointer.
#[verifier::rlimit(100)]
pub proof fn lemma_call_frame_runs(s0: MachineState, n: u16)
    requires
        wf(s0),
        16 <= s0.mem[0],
        s0.mem[0] + 5 < 0x10000,
        n <= s0.mem[0],
    ensures
        ({
            let r = run(s0, call_frame_lines(n));
            let sp = s0.mem[0];
            &&& r is Some
            &&& wf(r->0)
            &&& r->0.mem[0] == sp + 5
            &&& r->0.mem[1] == sp + 5
            &&& r->0.mem[2] == sp - n
            &&& r->0.mem[sp as int] == s0.d
            &&& r->0.mem[sp + 1] == s0.mem[1]
            &&& r->0.mem[sp + 2] == s0.mem[2]
            &&& r->0.mem[sp + 3] == s0.mem[3]
            &&& r->0.mem[sp + 4] == s0.mem[4]
        }),
{
    let m = s0.mem;
    let sp = m[0];
    let lcl = m[1];
    let arg = m[2];
    let this0 = m[3];
    let that0 = m[4];
    let retv = s0.d;
    let tail = seq![
        "@SP"@,
        "D=M"@,
        "@5"@,
        "D=D-A"@,
        "@"@ + dec_str(n as nat),
        "D=D-A"@,
        "@ARG"@,
        "M=D"@,
        "@SP"@,
        "D=M"@,
        "@LCL"@,
        "M=D"@,
    ];
    // Push the return address.
    lemma_push_d_runs(s0);
    let sa = MachineState { a: 0, mem: m.update(sp as int, retv).update(0, (sp + 1) as u16), ..s0 };
    // Read and push the local pointer.
    lemma_read_lcl_runs(sa);
    assert(sa.mem[1] == lcl);
    let sb = MachineState { a: 1, d: lcl, ..sa };
    lemma_push_d_runs(sb);
    assert(sb.mem[0] == sp + 1);
    let sc = MachineState {
        a: 0,
        mem: sb.mem.update(sp + 1, lcl).update(0, (sp + 2) as u16),
        ..sb
    };
    // Read and push the argument pointer.
    lemma_read_arg_runs(sc);
    assert(sc.mem[2] == arg);
    let sd = MachineState { a: 2, d: arg, ..sc };
    lemma_push_d_runs(sd);
    assert(sd.mem[0] == sp + 2);
    let se = MachineState {
        a: 0,
        mem: sd.mem.update(sp + 2, arg).update(0, (sp + 3) as u16),
        ..sd
    };
    // Read and push the this pointer.
    lemma_read_this_runs(se);
    assert(se.mem[3] == this0);
    let sf = MachineState { a: 3, d: this0, ..se };
    lemma_push_d_runs(sf);
    assert(sf.mem[0] == sp + 3);
    let sg = MachineState {
        a: 0,
        mem: sf.mem.update(sp + 3, this0).update(0, (sp + 4) as u16),
        ..sf
    };
    // Read and push the that pointer.
    lemma_read_that_runs(sg);
    assert(sg.mem[4] == that0);
    let sh = MachineState { a: 4, d: that0, ..sg };
    lemma_push_d_runs(sh);
    assert(sh.mem[0] == sp + 4);
    let si = MachineState {
        a: 0,
        mem: sh.mem.update(sp + 4, that0).update(0, (sp + 5) as u16),
        ..sh
    };
    // The twelve-line tail repositions the argument and local pointers.
    assert(si.mem[0] == sp + 5);
    lemma_call_reposition_runs(si, n);
    let t12 = MachineState {
        a: 1,
        d: (sp + 5) as u16,
        mem: si.mem.update(2, (sp - n) as u16).update(1, (sp + 5) as u16),
    };
    assert(run(si, tail) == Some(t12));
    // Chain the chunks.
    let r9 = push_d_asm() + tail;
    let r8 = seq!["@THAT"@, "D=M"@] + r9;
    let r7 = push_d_asm() + r8;
    let r6 = seq!["@THIS"@, "D=M"@] + r7;
    let r5 = push_d_asm() + r6;
    let r4 = seq!["@ARG"@, "D=M"@] + r5;
    let r3 = push_d_asm() + r4;
    let r2 = seq!["@LCL"@, "D=M"@] + r3;
    let r1 = push_d_asm() + r2;
    assert(call_frame_lines(n) == r1);
    lemma_run_append(s0, push_d_asm(), r2);
    lemma_run_append(sa, seq!["@LCL"@, "D=M"@], r3);
    lemma_run_append(sb, push_d_asm(), r4);
    lemma_run_append(sc, seq!["@ARG"@, "D=M"@], r5);
    lemma_run_append(sd, push_d_asm(), r6);
    lemma_run_append(se, seq!["@THIS"@, "D=M"@], r7);
    lemma_run_append(sf, push_d_asm(), r8);
    lemma_run_append(sg, seq!["@THAT"@, "D=M"@], r9);
    lemma_run_append(sh, push_d_asm(), tail);
    assert(run(s0, call_frame_lines(n)) == Some(t12));
}

/// The frame-teardown part of the return protocol: everything up to the
/// final jump.
pub open spec fn return_teardown_lines() -> Seq<Seq<char>> {
    seq![
        "@LCL"@,
        "D=M"@,
        "@R13"@,
        "M=D"@,
        "@5"@,
        "A=D-A"@,
        "D=M"@,
        "@R14"@,
        "M=D"@,
        "@SP"@,
        "M=M-1"@,
        "A=M"@,
        "D=M"@,
        "@ARG"@,
        "A=M"@,
        "M=D"@,
    ] + (seq!["@ARG"@, "D=M+1"@, "@SP"@, "M=D"@] + (restore_lines("@THAT"@) + (restore_lines(
        "@THIS"@,
    ) + (restore_lines("@ARG"@) + (restore_lines("@LCL"@) + seq!["@R14"@, "A=M"@])))))
}

/// One pointer restore: step the parked frame base down and copy the
/// saved word to `reg_line`'s register.
pub open spec fn restore_lines(reg_line: Seq<char>) -> Seq<Seq<char>> {
    seq!["@R13"@, "M=M-1"@, "A=M"@, "D=M"@, reg_line, "M=D"@]
}

/// The return protocol's emitted lines are the teardown followed by the
/// jump to the extracted return address.
#[verifier::rlimit(100)]
pub proof fn lemma_return_extraction()
    ensures
        return_asm().take(46) == return_teardown_lines(),
{
    assert(return_asm().take(46) =~~= return_teardown_lines());
}

/// Running one pointer restore.
#[verifier::rlimit(100)]
pub proof fn lemma_restore_runs(s: MachineState, reg_line: Seq<char>, r: u16)
    requires
        wf(s),
        forall|st: MachineState| #[trigger] step(st, reg_line) == Some(MachineState { a: r, ..st }),
        wsub(s.mem[13], 1) != 13,
        r != 13,
    ensures
        run(s, restore_lines(reg_line)) == Some(
            MachineState {
                a: r,
                d: s.mem[wsub(s.mem[13], 1) as int],
                mem: s.mem.update(13, wsub(s.mem[13], 1)).update(
                    r as int,
                    s.mem[wsub(s.mem[13], 1) as int],
                ),
            },
        ),
{
    let ls = restore_lines(reg_line);
    let fb = wsub(s.mem[13], 1);
    let v = s.mem[fb as int];
    let s1 = MachineState { a: 13, ..s };
    let s2 = MachineState { mem: s.mem.update(13, fb), ..s1 };
    let s3 = MachineState { a: fb, ..s2 };
    let s4 = MachineState { d: v, ..s3 };
    let s5 = MachineState { a: r, ..s4 };
    let s6 = MachineState { mem: s2.mem.update(r as int, v), ..s5 };
    lemma_step_at_r13(s);
    assert(step(s, ls[0]) == Some(s1));
    lemma_step_m_dec(s1);
    assert(step(s1, ls[1]) == Some(s2));
    lemma_step_a_eq_m(s2);
    assert(s2.mem[13] == fb);
    assert(step(s2, ls[2]) == Some(s3));
    lemma_step_d_eq_m(s3);
    assert(s3.mem[fb as int] == v);
    assert(step(s3, ls[3]) == Some(s4));
    assert(step(s4, ls[4]) == Some(s5));
    lemma_step_m_eq_d(s5);
    assert(step(s5, ls[5]) == Some(s6));
    let t1 = ls.drop_first();
    let t2 = t1.drop_first();
    let t3 = t2.drop_first();
    let t4 = t3.drop_first();
    let t5 = t4.drop_first();
    let t6 = t5.drop_first();
    assert(t6 =~~= Seq::<Seq<char>>::empty());
    assert(run(s, ls) == run(s1, t1));
    assert(run(s1, t1) == run(s2, t2));
    assert(run(s2, t2) == run(s3, t3));
    assert(run(s3, t3) == run(s4, t4));
    assert(run(s4, t4) == run(s5, t5));
    assert(run(s6, t6) == Some(s6));
    assert(run(s5, t5) == Some(s6));
}

/// Running the head of the teardown: park the frame base, extract the
/// return address, move the return value into the caller's first
/// argument slot.
#[verifier::rlimit(100)]
pub proof fn lemma_return_head_runs(s0: MachineState)
    requires
        wf(s0),
        16 <= s0.mem[0],
        21 <= s0.mem[1],
        16 <= s0.mem[2],
        s0.mem[2] + 5 <= s0.mem[1],
    ensures
        run(
            s0,
            seq![
                "@LCL"@,
                "D=M"@,
                "@R13"@,
                "M=D"@,
                "@5"@,
                "A=D-A"@,
                "D=M"@,
                "@R14"@,
                "M=D"@,
                "@SP"@,
                "M=M-1"@,
                "A=M"@,
                "D=M"@,
                "@ARG"@,
                "A=M"@,
                "M=D"@,
            ],
        ) == Some(
            MachineState {
                a: s0.mem[2],
                d: s0.mem[s0.mem[0] - 1],
                mem: s0.mem.update(13, s0.mem[1]).update(14, s0.mem[s0.mem[1] - 5]).update(
                    0,
                    (s0.mem[0] - 1) as u16,
                ).update(s0.mem[2] as int, s0.mem[s0.mem[0] - 1]),
            },
        ),
{
    let ls = seq![
        "@LCL"@,
        "D=M"@,
        "@R13"@,
        "M=D"@,
        "@5"@,
        "A=D-A"@,
        "D=M"@,
        "@R14"@,
        "M=D"@,
        "@SP"@,
        "M=M-1"@,
        "A=M"@,
        "D=M"@,
        "@ARG"@,
        "A=M"@,
        "M=D"@,
    ];
    let m = s0.mem;
    let sp = m[0];
    let lcl = m[1];
    let arg = m[2];
    let ra = m[lcl - 5];
    let rv = m[sp - 1];
    let s1 = MachineState { a: 1, ..s0 };
    let s2 = MachineState { d: lcl, ..s1 };
    let s3 = MachineState { a: 13, ..s2 };
    let s4 = MachineState { mem: m.update(13, lcl), ..s3 };
    let s5 = MachineState { a: 5, ..s4 };
    let s6 = MachineState { a: (lcl - 5) as u16, ..s5 };
    let s7 = MachineState { d: ra, ..s6 };
    let s8 = MachineState { a: 14, ..s7 };
    let s9 = MachineState { mem: s4.mem.update(14, ra), ..s8 };
    let s10 = MachineState { a: 0, ..s9 };
    let s11 = MachineState { mem: s9.mem.update(0, (sp - 1) as u16), ..s10 };
    let s12 = MachineState { a: (sp - 1) as u16, ..s11 };
    let s13 = MachineState { d: rv, ..s12 };
    let s14 = MachineState { a: 2, ..s13 };
    let s15 = MachineState { a: arg, ..s14 };
    let s16 = MachineState { mem: s11.mem.update(arg as int, rv), ..s15 };
    lemma_step_at_lcl(s0);
    assert(step(s0, ls[0]) == Some(s1));
    lemma_step_d_eq_m(s1);
    assert(step(s1, ls[1]) == Some(s2));
    lemma_step_at_r13(s2);
    assert(step(s2, ls[2]) == Some(s3));
    lemma_step_m_eq_d(s3);
    assert(step(s3, ls[3]) == Some(s4));
    lemma_step_at_five(s4);
    assert(step(s4, ls[4]) == Some(s5));
    lemma_step_a_d_minus_a(s5);
    lemma_wsub_no_wrap(lcl, 5);
    assert(step(s5, ls[5]) == Some(s6));
    lemma_step_d_eq_m(s6);
    assert(s6.mem[lcl - 5] == ra);
    assert(step(s6, ls[6]) == Some(s7));
    lemma_step_at_r14(s7);
    assert(step(s7, ls[7]) == Some(s8));
    lemma_step_m_eq_d(s8);
    assert(step(s8, ls[8]) == Some(s9));
    lemma_step_at_sp(s9);
    assert(step(s9, ls[9]) == Some(s10));
    lemma_step_m_dec(s10);
    assert(s10.mem[0] == sp);
    lemma_wsub_no_wrap(sp, 1);
    assert(step(s10, ls[10]) == Some(s11));
    lemma_step_a_eq_m(s11);
    assert(s11.mem[0] == sp - 1);
    assert(step(s11, ls[11]) == Some(s12));
    lemma_step_d_eq_m(s12);
    assert(s12.mem[sp - 1] == rv);
    assert(step(s12, ls[12]) == Some(s13));
    lemma_step_at_arg(s13);
    assert(step(s13, ls[13]) == Some(s14));
    lemma_step_a_eq_m(s14);
    assert(s14.mem[2] == arg);
    assert(step(s14, ls[14]) == Some(s15));
    lemma_step_m_eq_d(s15);
    assert(step(s15, ls[15]) == Some(s16));
    let t1 = ls.drop_first();
    let t2 = t1.drop_first();
    let t3 = t2.drop_first();
    let t4 = t3.drop_first();
    let t5 = t4.drop_first();
    let t6 = t5.drop_first();
    let t7 = t6.drop_first();
    let t8 = t7.drop_first();
    let t9 = t8.drop_first();
    let t10 = t9.drop_first();
    let t11 = t10.drop_first();
    let t12 = t11.drop_first();
    let t13 = t12.drop_first();
    let t14 = t13.drop_first();
    let t15 = t14.drop_first();
    let t16 = t15.drop_first();
    assert(t16 =~~= Seq::<Seq<char>>::empty());
    assert(run(s0, ls) == run(s1, t1));
    assert(run(s1, t1) == run(s2, t2));
    assert(run(s2, t2) == run(s3, t3));
    assert(run(s3, t3) == run(s4, t4));
    assert(run(s4, t4) == run(s5, t5));
    assert(run(s5, t5) == run(s6, t6));
    assert(run(s6, t6) == run(s7, t7));
    assert(run(s7, t7) == run(s8, t8));
    assert(run(s8, t8) == run(s9, t9));
    assert(run(s9, t9) == run(s10, t10));
    assert(run(s10, t10) == run(s11, t11));
    assert(run(s11, t11) == run(s12, t12));
    assert(run(s12, t12) == run(s13, t13));
    assert(run(s13, t13) == run(s14, t14));
    assert(run(s14, t14) == run(s15, t15));
    assert(run(s16, t16) == Some(s16));
    assert(run(s15, t15) == Some(s16));
}

/// Running the stack-pointer reset of the teardown.
pub proof fn lemma_return_sp_runs(s: MachineState)
    requires
        wf(s),
        s.mem[2] < 0xFFFF,
    ensures
        run(s, seq!["@ARG"@, "D=M+1"@, "@SP"@, "M=D"@]) == Some(
            MachineState {
                a: 0,
                d: (s.mem[2] + 1) as u16,
                mem: s.mem.update(0, (s.mem[2] + 1) as u16),
            },
        ),
{
    let ls = seq!["@ARG"@, "D=M+1"@, "@SP"@, "M=D"@];
    let arg = s.mem[2];
    let s1 = MachineState { a: 2, ..s };
    let s2 = MachineState { d: (arg + 1) as u16, ..s1 };
    let s3 = MachineState { a: 0, ..s2 };
    let s4 = MachineState { mem: s.mem.update(0, (arg + 1) as u16), ..s3 };
    lemma_step_at_arg(s);
    assert(step(s, ls[0]) == Some(s1));
    lemma_step_d_eq_m_inc(s1);
    assert(s1.mem[2] == arg);
    lemma_wadd_no_wrap(arg, 1);
    assert(step(s1, ls[1]) == Some(s2));
    lemma_step_at_sp(s2);
    assert(step(s2, ls[2]) == Some(s3));
    lemma_step_m_eq_d(s3);
    assert(step(s3, ls[3]) == Some(s4));
    let t1 = ls.drop_first();
    let t2 = t1.drop_first();
    let t3 = t2.drop_first();
    let t4 = t3.drop_first();
    assert(t4 =~~= Seq::<Seq<char>>::empty());
    assert(run(s, ls) == run(s1, t1));
    assert(run(s1, t1) == run(s2, t2));
    assert(run(s2, t2) == run(s3, t3));
    assert(run(s4, t4) == Some(s4));
    assert(run(s3, t3) == Some(s4));
}

/// Running the final address load of the teardown.
pub proof fn lemma_return_jump_addr_runs(s: MachineState)
    requires
        wf(s),
    ensures
        run(s, seq!["@R14"@, "A=M"@]) == Some(MachineState { a: s.mem[14], ..s }),
{
    let ls = seq!["@R14"@, "A=M"@];
    let s1 = MachineState { a: 14, ..s };
    let s2 = MachineState { a: s.mem[14], ..s1 };
    lemma_step_at_r14(s);
    assert(step(s, ls[0]) == Some(s1));
    lemma_step_a_eq_m(s1);
    assert(step(s1, ls[1]) == Some(s2));
    let t1 = ls.drop_first();
    let t2 = t1.drop_first();
    assert(t2 =~~= Seq::<Seq<char>>::empty());
    assert(run(s, ls) == run(s1, t1));
    assert(run(s2, t2) == Some(s2));
    assert(run(s1, t1) == Some(s2));
}

/// Running the whole frame teardown: the stack pointer lands one past
/// the caller's first argument slot, which now holds the return value;
/// the four pointers come back from the frame in reverse order of save,
/// each read through the parked frame base, never through the moved
/// stack pointer; and the address register holds the extracted return
/// address, ready for the jump.
#[verifier::rlimit(100)]
pub proof fn lemma_return_runs(s0: MachineState)
    requires
        wf(s0),
        16 <= s0.mem[0],
        21 <= s0.mem[1],
        16 <= s0.mem[2],
        s0.mem[2] + 5 <= s0.mem[1],
    ensures
        ({
            let r = run(s0, return_teardown_lines());
            let m = s0.mem;
            &&& r is Some
            &&& wf(r->0)
            &&& r->0.mem[0] == m[2] + 1
            &&& r->0.mem[m[2] as int] == m[m[0] - 1]
            &&& r->0.mem[4] == m[m[1] - 1]
            &&& r->0.mem[3] == m[m[1] - 2]
            &&& r->0.mem[2] == m[m[1] - 3]
            &&& r->0.mem[1] == m[m[1] - 4]
            &&& r->0.a == m[m[1] - 5]
        }),
{
    let m = s0.mem;
    let sp = m[0];
    let lcl = m[1];
    let arg = m[2];
    let head = seq![
        "@LCL"@,
        "D=M"@,
        "@R13"@,
        "M=D"@,
        "@5"@,
        "A=D-A"@,
        "D=M"@,
        "@R14"@,
        "M=D"@,
        "@SP"@,
        "M=M-1"@,
        "A=M"@,
        "D=M"@,
        "@ARG"@,
        "A=M"@,
        "M=D"@,
    ];
    let spr = seq!["@ARG"@, "D=M+1"@, "@SP"@, "M=D"@];
    let tail2 = seq!["@R14"@, "A=M"@];
    lemma_return_head_runs(s0);
    let sa = MachineState {
        a: arg,
        d: m[sp - 1],
        mem: m.update(13, lcl).update(14, m[lcl - 5]).update(0, (sp - 1) as u16).update(
            arg as int,
            m[sp - 1],
        ),
    };
    assert(sa.mem[2] == arg);
    lemma_return_sp_runs(sa);
    let sb = MachineState {
        a: 0,
        d: (arg + 1) as u16,
        mem: sa.mem.update(0, (arg + 1) as u16),
    };
    assert(sb.mem[13] == lcl);
    assert forall|st: MachineState| #[trigger] step(st, "@THAT"@) == Some(
        MachineState { a: 4, ..st },
    ) by {
        lemma_step_at_that(st);
    }
    assert forall|st: MachineState| #[trigger] step(st, "@THIS"@) == Some(
        MachineState { a: 3, ..st },
    ) by {
        lemma_step_at_this(st);
    }
    assert forall|st: MachineState| #[trigger] step(st, "@ARG"@) == Some(
        MachineState { a: 2, ..st },
    ) by {
        lemma_step_at_arg(st);
    }
    assert forall|st: MachineState| #[trigger] step(st, "@LCL"@) == Some(
        MachineState { a: 1, ..st },
    ) by {
        lemma_step_at_lcl(st);
    }
    lemma_wsub_no_wrap(lcl, 1);
    lemma_restore_runs(sb, "@THAT"@, 4);
    assert(sb.mem[lcl - 1] == m[lcl - 1]);
    let sc = MachineState {
        a: 4,
        d: m[lcl - 1],
        mem: sb.mem.update(13, (lcl - 1) as u16).update(4, m[lcl - 1]),
    };
    assert(sc.mem[13] == lcl - 1);
    lemma_wsub_no_wrap((lcl - 1) as u16, 1);
    lemma_restore_runs(sc, "@THIS"@, 3);
    assert(sc.mem[lcl - 2] == m[lcl - 2]);
    let sd = MachineState {
        a: 3,
        d: m[lcl - 2],
        mem: sc.mem.update(13, (lcl - 2) as u16).update(3, m[lcl - 2]),
    };
    assert(sd.mem[13] == lcl - 2);
    lemma_wsub_no_wrap((lcl - 2) as u16, 1);
    lemma_restore_runs(sd, "@ARG"@, 2);
    assert(sd.mem[lcl - 3] == m[lcl - 3]);
    let se = MachineState {
        a: 2,
        d: m[lcl - 3],
        mem: sd.mem.update(13, (lcl - 3) as u16).update(2, m[lcl - 3]),
    };
    assert(se.mem[13] == lcl - 3);
    lemma_wsub_no_wrap((lcl - 3) as u16, 1);
    lemma_restore_runs(se, "@LCL"@, 1);
    assert(se.mem[lcl - 4] == m[lcl - 4]);
    let sf = MachineState {
        a: 1,
        d: m[lcl - 4],
        mem: se.mem.update(13, (lcl - 4) as u16).update(1, m[lcl - 4]),
    };
    assert(sf.mem[14] == m[lcl - 5]);
    lemma_return_jump_addr_runs(sf);
    let sg = MachineState { a: m[lcl - 5], ..sf };
    let r5 = restore_lines("@LCL"@) + tail2;
    let r4 = restore_lines("@ARG"@) + r5;
    let r3 = restore_lines("@THIS"@) + r4;
    let r2 = restore_lines("@THAT"@) + r3;
    let r1 = spr + r2;
    assert(return_teardown_lines() == head + r1);
    lemma_run_append(s0, head, r1);
    lemma_run_append(sa, spr, r2);
    lemma_run_append(sb, restore_lines("@THAT"@), r3);
    lemma_run_append(sc, restore_lines("@THIS"@), r4);
    lemma_run_append(sd, restore_lines("@ARG"@), r5);
    lemma_run_append(se, restore_lines("@LCL"@), tail2);
    assert(run(s0, return_teardown_lines()) == Some(sg));
}

/// The call/return stack discipline: a call that found `n` arguments on
/// the stack, matched by a later return inside the callee, leaves the
/// stack pointer exactly `n - 1` below its value at the call — the
/// caller's arguments are consumed and exactly one return value remains.
/// The callee's state at its return is arbitrary except for the calling
/// convention: the argument pointer still stands where the call put it,
/// and the local pointer still marks a frame with the five saved words
/// below it.
pub proof fn lemma_call_return_stack_pointer(
    s0: MachineState,
    f: Seq<char>,
    n: u16,
    c: u64,
    s1: MachineState,
)
    requires
        wf(s0),
        16 <= s0.mem[0],
        s0.mem[0] + 5 < 0x10000,
        n + 16 <= s0.mem[0],
        wf(s1),
        s1.mem[2] == s0.mem[0] - n,
        16 <= s1.mem[0],
        21 <= s1.mem[1],
        s1.mem[2] + 5 <= s1.mem[1],
    ensures
        call_asm(f, n, c).subrange(2, 47) == call_frame_lines(n),
        return_asm().take(46) == return_teardown_lines(),
        run(s0, call_frame_lines(n)) is Some,
        run(s1, return_teardown_lines()) is Some,
        run(s1, return_teardown_lines())->0.mem[0] == s0.mem[0] - n + 1,
{
    lemma_call_frame_extraction(f, n, c);
    lemma_return_extraction();
    lemma_call_frame_runs(s0, n);
    lemma_return_runs(s1);
}

/// Round trip: the code for `push constant k` followed by the code for
/// `pop local 0` leaves `k` in the first local slot and hands the stack
/// pointer back exactly where it began, for every constant and every
/// sane starting state.
pub proof fn lemma_push_pop_round_trip(s0: MachineState, k: u16, unit: Seq<char>)
    requires
        wf(s0),
        16 <= s0.mem[0] < 0xFFFF,
        16 <= s0.mem[1],
    ensures
        ({
            let r = run(
                s0,
                push_asm(Segment::Constant, k, unit) + pop_asm(Segment::Local, 0, unit),
            );
            &&& r is Some
            &&& r->0.mem[s0.mem[1] as int] == k
            &&& r->0.mem[0] == s0.mem[0]
        }),
{
    let sp = s0.mem[0];
    let lcl = s0.mem[1];
    lemma_run_append(
        s0,
        push_asm(Segment::Constant, k, unit),
        pop_asm(Segment::Local, 0, unit),
    );
    lemma_push_constant_runs(s0, k, unit);
    let s1 = MachineState {
        a: 0,
        d: k,
        mem: s0.mem.update(sp as int, k).update(0, (sp + 1) as u16),
    };
    assert(wf(s1));
    assert(s1.mem[0] == sp + 1);
    assert(s1.mem[1] == lcl);
    lemma_pop_local0_runs(s1, unit);
    assert(s1.mem[s1.mem[0] - 1] == k);
}

/// The round trip holds of the translator's own output: generating
/// `push constant k` then `pop local 0` yields exactly the two blocks the
/// round-trip law runs.
pub proof fn lemma_translated_round_trip(s0: MachineState, k: u16, unit: Seq<char>)
    requires
        wf(s0),
        16 <= s0.mem[0] < 0xFFFF,
        16 <= s0.mem[1],
    ensures
        ({
            let cmds = seq![
                crate::parser::CmdView::Push(Segment::Constant, k),
                crate::parser::CmdView::Pop(Segment::Local, 0),
            ];
            let r = run(s0, crate::translator::gen_cmds(cmds, unit).0);
            &&& crate::translator::gen_cmds(cmds, unit).0 == push_asm(Segment::Constant, k, unit)
                + pop_asm(Segment::Local, 0, unit)
            &&& r is Some
            &&& r->0.mem[s0.mem[1] as int] == k
            &&& r->0.mem[0] == s0.mem[0]
        }),
{
    let cmds = seq![
        crate::parser::CmdView::Push(Segment::Constant, k),
        crate::parser::CmdView::Pop(Segment::Local, 0),
    ];
    let p1 = cmds.drop_last();
    let p0 = p1.drop_last();
    assert(p0 =~= Seq::<crate::parser::CmdView>::empty());
    assert(p0.len() == 0);
    assert(crate::translator::gen_cmds(p0, unit) == (Seq::<Seq<char>>::empty(), 0u64, 0u64));
    assert(p1.len() == 1);
    assert(p1.last() == crate::parser::CmdView::Push(Segment::Constant, k));
    assert(crate::translator::gen_cmds(p1, unit) == crate::translator::gen_step(
        crate::translator::gen_cmds(p0, unit),
        p1.last(),
        unit,
    ));
    assert(cmds.last() == crate::parser::CmdView::Pop(Segment::Local, 0));
    assert(crate::translator::gen_cmds(cmds, unit) == crate::translator::gen_step(
        crate::translator::gen_cmds(p1, unit),
        cmds.last(),
        unit,
    ));
    assert(crate::translator::gen_cmds(cmds, unit).0 =~~= push_asm(Segment::Constant, k, unit)
        + pop_asm(Segment::Local, 0, unit));
    lemma_push_pop_round_trip(s0, k, unit);
}

} // verus!
