//! The stack-machine command parser.
//!
//! A [`Parser`] holds the logical lines of one translation unit and reads
//! each line as a tagged [`VmCommand`]: an arithmetic or logical
//! operation, a segment access, a branch, or a piece of the procedure
//! call protocol. Label names are validated against the label grammar;
//! every malformed line is rejected with the matching error kind.

use vstd::prelude::*;
use vstd::string::*;
use crate::numerals::{parse_u16, parse_u16_str};
use crate::text::{logical_lines, tokens, tokenize, str_eq, views};

verus! {

// ---------------------------------------------------------------------------
// Commands and errors
// ---------------------------------------------------------------------------

/// The nine arithmetic and logical operations.
#[derive(Clone, Copy, Debug, PartialEq, Eq, Structural)]
pub enum ArithOp {
    Add,
    Sub,
    Neg,
    CmpEq,
    CmpGt,
    CmpLt,
    And,
    Or,
    Not,
}

/// The eight memory segments.
#[derive(Clone, Copy, Debug, PartialEq, Eq, Structural)]
pub enum Segment {
    Argument,
    Local,
    Static,
    Constant,
    This,
    That,
    Pointer,
    Temp,
}

/// One stack-machine command.
#[derive(Debug)]
pub enum VmCommand {
    Arithmetic(ArithOp),
    Push(Segment, u16),
    Pop(Segment, u16),
    Label(String),
    Goto(String),
    IfGoto(String),
    Call(String, u16),
    Function(String, u16),
    Return,
}

/// The abstract value of a command: names as character sequences.
pub enum CmdView {
    Arithmetic(ArithOp),
    Push(Segment, u16),
    Pop(Segment, u16),
    Label(Seq<char>),
    Goto(Seq<char>),
    IfGoto(Seq<char>),
    Call(Seq<char>, u16),
    Function(Seq<char>, u16),
    Return,
}

impl View for VmCommand {
    type V = CmdView;

    open spec fn view(&self) -> CmdView {
        match self {
            VmCommand::Arithmetic(op) => CmdView::Arithmetic(*op),
            VmCommand::Push(s, i) => CmdView::Push(*s, *i),
            VmCommand::Pop(s, i) => CmdView::Pop(*s, *i),
            VmCommand::Label(n) => CmdView::Label(n@),
            VmCommand::Goto(n) => CmdView::Goto(n@),
            VmCommand::IfGoto(n) => CmdView::IfGoto(n@),
            VmCommand::Call(f, k) => CmdView::Call(f@, *k),
            VmCommand::Function(f, k) => CmdView::Function(f@, *k),
            VmCommand::Return => CmdView::Return,
        }
    }
}

/// Why a line is not a command.
#[derive(Clone, Copy, Debug, PartialEq, Eq, Structural)]
pub enum VmErrorKind {
    /// The first token matches none of the fixed mnemonics.
    UnknownCommand,
    /// A required operand is missing from the line.
    MissingArgument,
    /// An index or count is not a non-negative integer in range.
    InvalidInteger,
    /// A branch or procedure target fails the label grammar.
    InvalidLabelName,
    /// A segment token outside the set this access allows.
    UnknownSegment,
}

// ---------------------------------------------------------------------------
// The label grammar
// ---------------------------------------------------------------------------

/// A character that may open a label: a letter, `_`, `.` or `:`.
pub open spec fn is_label_start(c: char) -> bool {
    let u = c as u32;
    (97 <= u && u <= 122) || (65 <= u && u <= 90) || u == 95 || u == 46 || u == 58
}

/// A character that may continue a label: an opener or a digit.
pub open spec fn is_label_char(c: char) -> bool {
    is_label_start(c) || (48 <= c as u32 <= 57)
}

/// The label grammar: non-empty, opening with a letter, `_`, `.` or `:`,
/// and containing only such characters and digits.
pub open spec fn is_valid_label(s: Seq<char>) -> bool {
    s.len() > 0 && is_label_start(s[0]) && (forall|i: int| 1 <= i < s.len() ==> is_label_char(s[i]))
}

fn label_start_char(c: char) -> (r: bool)
    ensures
        r == is_label_start(c),
{
    let u = c as u32;
    (97 <= u && u <= 122) || (65 <= u && u <= 90) || u == 95 || u == 46 || u == 58
}

fn label_char(c: char) -> (r: bool)
    ensures
        r == is_label_char(c),
{
    let u = c as u32;
    label_start_char(c) || (48 <= u && u <= 57)
}

/// Checks a name against the label grammar.
pub fn validate_label(label: &str) -> (r: bool)
    ensures
        r == is_valid_label(label@),
{
    let n = label.unicode_len();
    if n == 0 {
        return false;
    }
    if !label_start_char(label.get_char(0)) {
        return false;
    }
    let mut i: usize = 1;
    while i < n
        invariant
            1 <= i <= n,
            n == label@.len(),
            forall|k: int| 1 <= k < i ==> is_label_char(label@[k]),
        decreases n - i,
    {
        if !label_char(label.get_char(i)) {
            return false;
        }
        i = i + 1;
    }
    true
}

// ---------------------------------------------------------------------------
// Parsing
// ---------------------------------------------------------------------------

/// The arithmetic operation a mnemonic names, when it names one.
pub open spec fn spec_arith(t: Seq<char>) -> Option<ArithOp> {
    if t == "add"@ {
        Some(ArithOp::Add)
    } else if t == "sub"@ {
        Some(ArithOp::Sub)
    } else if t == "neg"@ {
        Some(ArithOp::Neg)
    } else if t == "eq"@ {
        Some(ArithOp::CmpEq)
    } else if t == "gt"@ {
        Some(ArithOp::CmpGt)
    } else if t == "lt"@ {
        Some(ArithOp::CmpLt)
    } else if t == "and"@ {
        Some(ArithOp::And)
    } else if t == "or"@ {
        Some(ArithOp::Or)
    } else if t == "not"@ {
        Some(ArithOp::Not)
    } else {
        None
    }
}

/// The segment a token names, when it names one.
pub open spec fn spec_segment(t: Seq<char>) -> Option<Segment> {
    if t == "argument"@ {
        Some(Segment::Argument)
    } else if t == "local"@ {
        Some(Segment::Local)
    } else if t == "static"@ {
        Some(Segment::Static)
    } else if t == "constant"@ {
        Some(Segment::Constant)
    } else if t == "this"@ {
        Some(Segment::This)
    } else if t == "that"@ {
        Some(Segment::That)
    } else if t == "pointer"@ {
        Some(Segment::Pointer)
    } else if t == "temp"@ {
        Some(Segment::Temp)
    } else {
        None
    }
}

/// The command a logical line denotes, or why it denotes none.
///
/// A `pop` of the `constant` segment is rejected: that segment is not an
/// address, so nothing can be stored into it.
pub open spec fn spec_parse(l: Seq<char>) -> Result<CmdView, VmErrorKind> {
    let ts = tokens(l);
    if ts.len() == 0 {
        Err(VmErrorKind::UnknownCommand)
    } else if spec_arith(ts[0]) is Some {
        Ok(CmdView::Arithmetic(spec_arith(ts[0])->0))
    } else if ts[0] == "push"@ {
        if ts.len() < 3 {
            Err(VmErrorKind::MissingArgument)
        } else {
            match spec_segment(ts[1]) {
                None => Err(VmErrorKind::UnknownSegment),
                Some(seg) => match parse_u16(ts[2]) {
                    None => Err(VmErrorKind::InvalidInteger),
                    Some(i) => Ok(CmdView::Push(seg, i)),
                },
            }
        }
    } else if ts[0] == "pop"@ {
        if ts.len() < 3 {
            Err(VmErrorKind::MissingArgument)
        } else {
            match spec_segment(ts[1]) {
                None => Err(VmErrorKind::UnknownSegment),
                Some(seg) => if seg == Segment::Constant {
                    Err(VmErrorKind::UnknownSegment)
                } else {
                    match parse_u16(ts[2]) {
                        None => Err(VmErrorKind::InvalidInteger),
                        Some(i) => Ok(CmdView::Pop(seg, i)),
                    }
                },
            }
        }
    } else if ts[0] == "label"@ {
        if ts.len() < 2 {
            Err(VmErrorKind::MissingArgument)
        } else if !is_valid_label(ts[1]) {
            Err(VmErrorKind::InvalidLabelName)
        } else {
            Ok(CmdView::Label(ts[1]))
        }
    } else if ts[0] == "goto"@ {
        if ts.len() < 2 {
            Err(VmErrorKind::MissingArgument)
        } else if !is_valid_label(ts[1]) {
            Err(VmErrorKind::InvalidLabelName)
        } else {
            Ok(CmdView::Goto(ts[1]))
        }
    } else if ts[0] == "if-goto"@ {
        if ts.len() < 2 {
            Err(VmErrorKind::MissingArgument)
        } else if !is_valid_label(ts[1]) {
            Err(VmErrorKind::InvalidLabelName)
        } else {
            Ok(CmdView::IfGoto(ts[1]))
        }
    } else if ts[0] == "call"@ {
        if ts.len() < 3 {
            Err(VmErrorKind::MissingArgument)
        } else if !is_valid_label(ts[1]) {
            Err(VmErrorKind::InvalidLabelName)
        } else {
            match parse_u16(ts[2]) {
                None => Err(VmErrorKind::InvalidInteger),
                Some(k) => Ok(CmdView::Call(ts[1], k)),
            }
        }
    } else if ts[0] == "function"@ {
        if ts.len() < 3 {
            Err(VmErrorKind::MissingArgument)
        } else if !is_valid_label(ts[1]) {
            Err(VmErrorKind::InvalidLabelName)
        } else {
            match parse_u16(ts[2]) {
                None => Err(VmErrorKind::InvalidInteger),
                Some(k) => Ok(CmdView::Function(ts[1], k)),
            }
        }
    } else if ts[0] == "return"@ {
        Ok(CmdView::Return)
    } else {
        Err(VmErrorKind::UnknownCommand)
    }
}

/// Looks up a segment token.
fn segment_of(t: &str) -> (r: Option<Segment>)
    ensures
        r == spec_segment(t@),
{
    if str_eq(t, "argument") {
        Some(Segment::Argument)
    } else if str_eq(t, "local") {
        Some(Segment::Local)
    } else if str_eq(t, "static") {
        Some(Segment::Static)
    } else if str_eq(t, "constant") {
        Some(Segment::Constant)
    } else if str_eq(t, "this") {
        Some(Segment::This)
    } else if str_eq(t, "that") {
        Some(Segment::That)
    } else if str_eq(t, "pointer") {
        Some(Segment::Pointer)
    } else if str_eq(t, "temp") {
        Some(Segment::Temp)
    } else {
        None
    }
}

// ---------------------------------------------------------------------------
// The parser
// ---------------------------------------------------------------------------

/// Reads one translation unit, one logical line at a time.
pub struct Parser {
    lines: Vec<String>,
    current: usize,
}

impl Parser {
    /// The logical lines being read.
    pub closed spec fn lines_view(&self) -> Seq<Seq<char>> {
        views(self.lines@)
    }

    /// The position of the current command.
    pub closed spec fn pos(&self) -> int {
        self.current as int
    }

    /// Splits the input into logical lines and stands at the first.
    pub fn new(input: &str) -> (p: Parser)
        ensures
            p.lines_view() == logical_lines(input@),
            p.lines_view().len() <= usize::MAX,
            p.pos() == 0,
    {
        let n = input.unicode_len();
        let mut lines: Vec<String> = Vec::new();
        let mut start: usize = 0;
        let mut i: usize = 0;
        proof {
            assert(input@.skip(0) =~= input@);
            assert(views(lines@) =~= Seq::<Seq<char>>::empty());
            assert(Seq::<Seq<char>>::empty() + logical_lines(input@) =~= logical_lines(input@));
        }
        while i < n
            invariant
                0 <= start <= i <= n,
                n == input@.len(),
                forall|k: int| start <= k < i ==> input@[k] != '\n',
                logical_lines(input@) == views(lines@) + crate::text::clean_lines(
                    crate::text::split_sep(input@.skip(start as int), '\n', Seq::empty()),
                ),
            decreases n - i,
        {
            if input.get_char(i) == '\n' {
                let ghost rest = input@.skip(start as int);
                let ghost old_lines = lines@;
                let cl = clean_str_of(input, start, i);
                let ghost cv = cl@;
                if !cl.as_str().is_empty() {
                    lines.push(cl);
                }
                proof {
                    let j = i - start;
                    crate::text::lemma_split_sep_at(rest, '\n', Seq::empty(), j);
                    assert(Seq::<char>::empty() + rest.take(j) =~= input@.subrange(
                        start as int,
                        i as int,
                    ));
                    assert(rest.skip(j + 1) =~= input@.skip(i + 1));
                    let tail = crate::text::split_sep(input@.skip(i + 1), '\n', Seq::empty());
                    crate::text::lemma_clean_lines_add(
                        seq![input@.subrange(start as int, i as int)],
                        tail,
                    );
                    crate::text::lemma_clean_lines_singleton(
                        input@.subrange(start as int, i as int),
                    );
                    if cv.len() > 0 {
                        assert(views(lines@) =~= views(old_lines).push(cv));
                        assert(views(old_lines) + (seq![cv] + crate::text::clean_lines(tail))
                            =~= views(lines@) + crate::text::clean_lines(tail));
                    } else {
                        assert(views(old_lines) + (Seq::<Seq<char>>::empty()
                            + crate::text::clean_lines(tail)) =~= views(lines@)
                            + crate::text::clean_lines(tail));
                    }
                }
                start = i + 1;
            }
            i = i + 1;
        }
        let ghost rest = input@.skip(start as int);
        let ghost old_lines = lines@;
        let cl = clean_str_of(input, start, n);
        let ghost cv = cl@;
        if !cl.as_str().is_empty() {
            lines.push(cl);
        }
        proof {
            let j = n - start;
            crate::text::lemma_split_sep_at(rest, '\n', Seq::empty(), j);
            assert(Seq::<char>::empty() + rest =~= input@.subrange(start as int, n as int));
            assert(crate::text::split_sep(rest, '\n', Seq::empty()) =~~= seq![
                input@.subrange(start as int, n as int),
            ]);
            crate::text::lemma_clean_lines_singleton(input@.subrange(start as int, n as int));
            if cv.len() > 0 {
                assert(views(lines@) =~= views(old_lines).push(cv));
                assert(views(old_lines) + seq![cv] =~= views(lines@));
            } else {
                assert(views(old_lines) + Seq::<Seq<char>>::empty() =~= views(lines@));
            }
            vstd::std_specs::vec::axiom_spec_len(&lines);
        }
        Parser { lines, current: 0 }
    }

    /// Whether a command remains to be read.
    pub fn has_more_commands(&self) -> (b: bool)
        ensures
            b == (self.pos() < self.lines_view().len()),
    {
        self.current < self.lines.len()
    }

    /// Steps to the next command, when one remains.
    pub fn advance(&mut self)
        ensures
            final(self).lines_view() == old(self).lines_view(),
            final(self).pos() == (if old(self).pos() < old(self).lines_view().len() {
                old(self).pos() + 1
            } else {
                old(self).pos()
            }),
    {
        if self.current < self.lines.len() {
            self.current = self.current + 1;
        }
    }

    /// The 1-based index of the current command, as diagnostics report it.
    pub fn current_line_number(&self) -> (r: usize)
        requires
            self.pos() < self.lines_view().len(),
        ensures
            r == self.pos() + 1,
    {
        let n = self.lines.len();
        proof {
            assert(self.current < n);
        }
        self.current + 1
    }

    /// Reads the current line as a command.
    pub fn parse(&self) -> (r: Result<VmCommand, VmErrorKind>)
        requires
            self.pos() < self.lines_view().len(),
        ensures
            (match spec_parse(self.lines_view()[self.pos()]) {
                Ok(c) => r is Ok && r->Ok_0@ == c,
                Err(k) => r is Err && r->Err_0 == k,
            }),
    {
        let line = self.lines[self.current].as_str();
        proof {
            assert(line@ == self.lines_view()[self.pos()]);
        }
        let ts = tokenize(line);
        let ghost tv = tokens(line@);
        if ts.len() == 0 {
            return Err(VmErrorKind::UnknownCommand);
        }
        proof {
            assert(ts@[0]@ == tv[0]);
        }
        let t0 = ts[0].as_str();
        if str_eq(t0, "add") {
            Ok(VmCommand::Arithmetic(ArithOp::Add))
        } else if str_eq(t0, "sub") {
            Ok(VmCommand::Arithmetic(ArithOp::Sub))
        } else if str_eq(t0, "neg") {
            Ok(VmCommand::Arithmetic(ArithOp::Neg))
        } else if str_eq(t0, "eq") {
            Ok(VmCommand::Arithmetic(ArithOp::CmpEq))
        } else if str_eq(t0, "gt") {
            Ok(VmCommand::Arithmetic(ArithOp::CmpGt))
        } else if str_eq(t0, "lt") {
            Ok(VmCommand::Arithmetic(ArithOp::CmpLt))
        } else if str_eq(t0, "and") {
            Ok(VmCommand::Arithmetic(ArithOp::And))
        } else if str_eq(t0, "or") {
            Ok(VmCommand::Arithmetic(ArithOp::Or))
        } else if str_eq(t0, "not") {
            Ok(VmCommand::Arithmetic(ArithOp::Not))
        } else if str_eq(t0, "push") {
            if ts.len() < 3 {
                return Err(VmErrorKind::MissingArgument);
            }
            proof {
                assert(ts@[1]@ == tv[1]);
                assert(ts@[2]@ == tv[2]);
            }
            match segment_of(ts[1].as_str()) {
                None => Err(VmErrorKind::UnknownSegment),
                Some(seg) => {
                    match parse_u16_str(ts[2].as_str()) {
                        None => Err(VmErrorKind::InvalidInteger),
                        Some(i) => Ok(VmCommand::Push(seg, i)),
                    }
                },
            }
        } else if str_eq(t0, "pop") {
            if ts.len() < 3 {
                return Err(VmErrorKind::MissingArgument);
            }
            proof {
                assert(ts@[1]@ == tv[1]);
                assert(ts@[2]@ == tv[2]);
            }
            match segment_of(ts[1].as_str()) {
                None => Err(VmErrorKind::UnknownSegment),
                Some(seg) => {
                    if seg == Segment::Constant {
                        Err(VmErrorKind::UnknownSegment)
                    } else {
                        match parse_u16_str(ts[2].as_str()) {
                            None => Err(VmErrorKind::InvalidInteger),
                            Some(i) => Ok(VmCommand::Pop(seg, i)),
                        }
                    }
                },
            }
        } else if str_eq(t0, "label") {
            if ts.len() < 2 {
                return Err(VmErrorKind::MissingArgument);
            }
            proof {
                assert(ts@[1]@ == tv[1]);
            }
            if !validate_label(ts[1].as_str()) {
                Err(VmErrorKind::InvalidLabelName)
            } else {
                Ok(VmCommand::Label(ts[1].clone()))
            }
        } else if str_eq(t0, "goto") {
            if ts.len() < 2 {
                return Err(VmErrorKind::MissingArgument);
            }
            proof {
                assert(ts@[1]@ == tv[1]);
            }
            if !validate_label(ts[1].as_str()) {
                Err(VmErrorKind::InvalidLabelName)
            } else {
                Ok(VmCommand::Goto(ts[1].clone()))
            }
        } else if str_eq(t0, "if-goto") {
            if ts.len() < 2 {
                return Err(VmErrorKind::MissingArgument);
            }
            proof {
                assert(ts@[1]@ == tv[1]);
            }
            if !validate_label(ts[1].as_str()) {
                Err(VmErrorKind::InvalidLabelName)
            } else {
                Ok(VmCommand::IfGoto(ts[1].clone()))
            }
        } else if str_eq(t0, "call") {
            if ts.len() < 3 {
                return Err(VmErrorKind::MissingArgument);
            }
            proof {
                assert(ts@[1]@ == tv[1]);
                assert(ts@[2]@ == tv[2]);
            }
            if !validate_label(ts[1].as_str()) {
                return Err(VmErrorKind::InvalidLabelName);
            }
            match parse_u16_str(ts[2].as_str()) {
                None => Err(VmErrorKind::InvalidInteger),
                Some(k) => Ok(VmCommand::Call(ts[1].clone(), k)),
            }
        } else if str_eq(t0, "function") {
            if ts.len() < 3 {
                return Err(VmErrorKind::MissingArgument);
            }
            proof {
                assert(ts@[1]@ == tv[1]);
                assert(ts@[2]@ == tv[2]);
            }
            if !validate_label(ts[1].as_str()) {
                return Err(VmErrorKind::InvalidLabelName);
            }
            match parse_u16_str(ts[2].as_str()) {
                None => Err(VmErrorKind::InvalidInteger),
                Some(k) => Ok(VmCommand::Function(ts[1].clone(), k)),
            }
        } else if str_eq(t0, "return") {
            Ok(VmCommand::Return)
        } else {
            Err(VmErrorKind::UnknownCommand)
        }
    }
}

/// The cleaned form of the raw line `[from, to)` of `s`.
fn clean_str_of(s: &str, from: usize, to: usize) -> (r: String)
    requires
        from <= to <= s@.len(),
    ensures
        r@ == crate::text::clean_line(s@.subrange(from as int, to as int)),
{
    crate::text::clean_str(s.substring_char(from, to))
}

} // verus!
