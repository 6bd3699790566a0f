//! The translator: one stack-machine translation unit to assembly text.
//!
//! [`VMTranslator::translate`] parses every logical line of the input and
//! feeds each command to the code generator, threading the two label
//! counters through the run. The first malformed line aborts the
//! translation with its 1-based command index; nothing is emitted for a
//! unit that fails.

use vstd::prelude::*;
use crate::codegen::{
    arith_asm, call_asm, function_asm, goto_asm, if_goto_asm, is_cmp, join_lines, label_asm,
    pop_asm, push_asm, return_asm, CodeWriter,
};
use crate::parser::{spec_parse, CmdView, Parser, Segment, VmCommand, VmErrorKind};
use crate::text::logical_lines;

verus! {

/// A translation failure: the kind of the first malformed command and
/// its 1-based index among the logical lines.
#[derive(Clone, Copy, Debug, PartialEq, Eq, Structural)]
pub struct TranslateError {
    pub index: usize,
    pub kind: VmErrorKind,
}

/// One generation step: the lines a command appends and how it moves the
/// two counters (comparison branches, call sites).
pub open spec fn gen_step(st: (Seq<Seq<char>>, u64, u64), c: CmdView, unit: Seq<char>) -> (
    Seq<Seq<char>>,
    u64,
    u64,
) {
    match c {
        CmdView::Arithmetic(op) => (
            st.0 + arith_asm(op, st.1),
            ((st.1 + (if is_cmp(op) {
                1int
            } else {
                0int
            })) as u64),
            st.2,
        ),
        CmdView::Push(s, i) => (st.0 + push_asm(s, i, unit), st.1, st.2),
        CmdView::Pop(s, i) => (st.0 + pop_asm(s, i, unit), st.1, st.2),
        CmdView::Label(n) => (st.0 + label_asm(n), st.1, st.2),
        CmdView::Goto(n) => (st.0 + goto_asm(n), st.1, st.2),
        CmdView::IfGoto(n) => (st.0 + if_goto_asm(n), st.1, st.2),
        CmdView::Call(f, k) => (st.0 + call_asm(f, k, st.2), st.1, ((st.2 + 1) as u64)),
        CmdView::Function(f, k) => (st.0 + function_asm(f, k), st.1, st.2),
        CmdView::Return => (st.0 + return_asm(), st.1, st.2),
    }
}

/// The lines and counter values after generating a command sequence,
/// starting from no output and zeroed counters.
pub open spec fn gen_cmds(cmds: Seq<CmdView>, unit: Seq<char>) -> (Seq<Seq<char>>, u64, u64)
    decreases cmds.len(),
{
    if cmds.len() == 0 {
        (Seq::<Seq<char>>::empty(), 0u64, 0u64)
    } else {
        gen_step(gen_cmds(cmds.drop_last(), unit), cmds.last(), unit)
    }
}

/// The commands a line sequence parses to (meaningful when every line
/// parses).
pub open spec fn cmds_of(lines: Seq<Seq<char>>) -> Seq<CmdView> {
    lines.map_values(|l: Seq<char>| spec_parse(l)->Ok_0)
}

/// The position and kind of the first parse failure, when there is one.
pub open spec fn first_parse_error(lines: Seq<Seq<char>>) -> Option<(int, VmErrorKind)>
    decreases lines.len(),
{
    if lines.len() == 0 {
        None
    } else if spec_parse(lines[0]) is Err {
        Some((0int, spec_parse(lines[0])->Err_0))
    } else {
        match first_parse_error(lines.drop_first()) {
            None => None,
            Some((i, k)) => Some((i + 1, k)),
        }
    }
}

/// Shifts [`first_parse_error`] past a prefix of lines that parse.
pub proof fn lemma_first_parse_error_skip(lines: Seq<Seq<char>>, i: int)
    requires
        0 <= i <= lines.len(),
        forall|j: int| 0 <= j < i ==> spec_parse(#[trigger] lines[j]) is Ok,
    ensures
        first_parse_error(lines) == (match first_parse_error(lines.skip(i)) {
            None => None,
            Some((k, e)) => Some((k + i, e)),
        }),
    decreases i,
{
    if i == 0 {
        assert(lines.skip(0) =~= lines);
        match first_parse_error(lines) {
            None => {},
            Some((k, e)) => {
                assert(Some((k, e)) == Some((k + 0, e)));
            },
        }
    } else {
        let rest = lines.drop_first();
        assert(forall|j: int| 0 <= j < i - 1 ==> spec_parse(#[trigger] rest[j]) is Ok);
        lemma_first_parse_error_skip(rest, i - 1);
        assert(rest.skip(i - 1) =~= lines.skip(i));
    }
}

/// The full translator output for a source text and unit name.
pub open spec fn vm_output(s: Seq<char>, unit: Seq<char>) -> Seq<char> {
    join_lines(gen_cmds(cmds_of(logical_lines(s)), unit).0)
}

/// Translates whole stack-machine translation units.
pub struct VMTranslator;

impl VMTranslator {
    /// Translates the source text `input` into assembly text, using
    /// `filename` as the translation unit's name for static-segment
    /// qualification. The first malformed line aborts the run with its
    /// 1-based command index and the matching error kind; otherwise the
    /// output is exactly the newline-joined generated line sequence.
    pub fn translate(input: &str, filename: &str) -> (r: Result<String, TranslateError>)
        ensures
            (match first_parse_error(logical_lines(input@)) {
                None => r is Ok && r->Ok_0@ == vm_output(input@, filename@),
                Some((i, k)) => r is Err && r->Err_0.index == i + 1 && r->Err_0.kind == k,
            }),
    {
        let ghost lls = logical_lines(input@);
        let mut parser = Parser::new(input);
        let mut code_writer = CodeWriter::new(filename);
        proof {
            assert(lls.take(0) =~= Seq::<Seq<char>>::empty());
            assert(cmds_of(lls.take(0)) =~= Seq::<CmdView>::empty());
        }
        while parser.has_more_commands()
            invariant
                lls == logical_lines(input@),
                parser.lines_view() == lls,
                lls.len() <= usize::MAX,
                0 <= parser.pos() <= lls.len(),
                forall|j: int| 0 <= j < parser.pos() ==> spec_parse(#[trigger] lls[j]) is Ok,
                code_writer.unit() == filename@,
                (code_writer.lines(), code_writer.branches(), code_writer.calls()) == gen_cmds(
                    cmds_of(lls.take(parser.pos())),
                    filename@,
                ),
                code_writer.branches() <= parser.pos(),
                code_writer.calls() <= parser.pos(),
            decreases lls.len() - parser.pos(),
        {
            let line_num = parser.current_line_number();
            let ghost i = parser.pos();
            match parser.parse() {
                Err(k) => {
                    proof {
                        lemma_first_parse_error_skip(lls, i);
                        assert(lls.skip(i)[0] == lls[i]);
                        assert(lls.skip(i).len() > 0);
                        assert(spec_parse(lls.skip(i)[0]) is Err);
                        assert(first_parse_error(lls.skip(i)) == Some(
                            (0int, spec_parse(lls[i])->Err_0),
                        ));
                        assert(first_parse_error(lls) == Some((i, spec_parse(lls[i])->Err_0)));
                    }
                    return Err(TranslateError { index: line_num, kind: k });
                },
                Ok(cmd) => {
                    let ghost cv = cmd@;
                    proof {
                        assert(spec_parse(lls[i]) == Ok::<CmdView, VmErrorKind>(cv));
                    }
                    match cmd {
                        VmCommand::Arithmetic(op) => code_writer.write_arithmetic(op),
                        VmCommand::Push(s, idx) => code_writer.write_push(s, idx),
                        VmCommand::Pop(s, idx) => {
                            proof {
                                assert(s != Segment::Constant);
                            }
                            code_writer.write_pop(s, idx);
                        },
                        VmCommand::Label(l) => code_writer.write_label(l.as_str()),
                        VmCommand::Goto(l) => code_writer.write_goto(l.as_str()),
                        VmCommand::IfGoto(l) => code_writer.write_if_goto(l.as_str()),
                        VmCommand::Call(f, k) => code_writer.write_call(f.as_str(), k),
                        VmCommand::Function(f, k) => code_writer.write_function(f.as_str(), k),
                        VmCommand::Return => code_writer.write_return(),
                    }
                    proof {
                        assert(lls.take(i + 1).drop_last() =~= lls.take(i));
                        assert(lls.take(i + 1).last() == lls[i]);
                        assert(cmds_of(lls.take(i + 1)) =~= cmds_of(lls.take(i)).push(cv));
                        assert(cmds_of(lls.take(i + 1)).drop_last() =~= cmds_of(lls.take(i)));
                        assert(cmds_of(lls.take(i + 1)).last() == cv);
                    }
                    parser.advance();
                },
            }
        }
        proof {
            assert(parser.pos() == lls.len());
            assert(lls.take(lls.len() as int) =~= lls);
            lemma_first_parse_error_skip(lls, lls.len() as int);
            assert(lls.skip(lls.len() as int) =~= Seq::<Seq<char>>::empty());
        }
        Ok(code_writer.get_output())
    }
}

} // verus!
