//! The errors of loading and running a program.
use vstd::prelude::*;
use crate::builder::Missing;
use crate::text::{chars_of, natural_digits, push_digits, string_of};

verus! {

/// What went wrong.
#[derive(Debug)]
pub enum ErrorKind {
    /// A file could not be read; the operating system's message.
    IoFailure(String),
    /// A file is not well-formed XML; the parser's message.
    MalformedDocument(String),
    /// An `if` statement lacks a required child element.
    StructuralError(Missing),
    /// A file includes itself, directly or through other files.
    CircularInclude(String),
    UndefinedVariable(String),
    UndefinedFunction(String),
    ArityMismatch { function: String, expected: usize, actual: usize },
    DivisionByZero,
    /// A string literal where an integer is needed.
    UnsupportedExpression,
    /// Calls nested deeper than the evaluator allows.
    CallDepthExceeded,
    NoMainFunction,
}

/// Model of an error kind.
pub enum Fault {
    IoFailure(Seq<char>),
    MalformedDocument(Seq<char>),
    StructuralError(Missing),
    CircularInclude(Seq<char>),
    UndefinedVariable(Seq<char>),
    UndefinedFunction(Seq<char>),
    ArityMismatch { function: Seq<char>, expected: nat, actual: nat },
    DivisionByZero,
    UnsupportedExpression,
    CallDepthExceeded,
    NoMainFunction,
}

impl View for ErrorKind {
    type V = Fault;

    open spec fn view(&self) -> Fault {
        match self {
            ErrorKind::IoFailure(m) => Fault::IoFailure(m@),
            ErrorKind::MalformedDocument(m) => Fault::MalformedDocument(m@),
            ErrorKind::StructuralError(m) => Fault::StructuralError(*m),
            ErrorKind::CircularInclude(p) => Fault::CircularInclude(p@),
            ErrorKind::UndefinedVariable(n) => Fault::UndefinedVariable(n@),
            ErrorKind::UndefinedFunction(n) => Fault::UndefinedFunction(n@),
            ErrorKind::ArityMismatch { function, expected, actual } => Fault::ArityMismatch {
                function: function@,
                expected: *expected as nat,
                actual: *actual as nat,
            },
            ErrorKind::DivisionByZero => Fault::DivisionByZero,
            ErrorKind::UnsupportedExpression => Fault::UnsupportedExpression,
            ErrorKind::CallDepthExceeded => Fault::CallDepthExceeded,
            ErrorKind::NoMainFunction => Fault::NoMainFunction,
        }
    }
}

/// An error with the file it concerns and a 1-based line and column, or
/// line and column 0 where the position is unknown.
#[derive(Debug)]
pub struct XplError {
    pub kind: ErrorKind,
    pub file: String,
    pub line: usize,
    pub col: usize,
}

/// The words that describe a fault.
pub open spec fn summary(f: Fault) -> Seq<char> {
    match f {
        Fault::IoFailure(m) => m,
        Fault::MalformedDocument(m) => m,
        Fault::StructuralError(Missing::Condition) => "Missing condition"@,
        Fault::StructuralError(Missing::Then) => "Missing then block"@,
        Fault::StructuralError(Missing::Else) => "Missing else block"@,
        Fault::CircularInclude(p) => "Circular include of "@ + p,
        Fault::UndefinedVariable(n) => "Undefined variable "@ + n,
        Fault::UndefinedFunction(n) => "Undefined function "@ + n,
        Fault::ArityMismatch { function, expected, actual } => "Expected "@ + natural_digits(
            expected,
        ) + " args for function '"@ + function + "', got "@ + natural_digits(actual),
        Fault::DivisionByZero => "Division by zero"@,
        Fault::UnsupportedExpression => "Unsupported expression in eval"@,
        Fault::CallDepthExceeded => "Call depth exceeded"@,
        Fault::NoMainFunction => "No main function"@,
    }
}

/// The one-line report of an error: `IO error in FILE: ...`, `XML parse
/// error in FILE: ...`, or `FILE:LINE:COL: ...`.
pub open spec fn report_text(kind: Fault, file: Seq<char>, line: nat, col: nat) -> Seq<char> {
    match kind {
        Fault::IoFailure(m) => "IO error in "@ + file + ": "@ + m,
        Fault::MalformedDocument(m) => "XML parse error in "@ + file + ": "@ + m,
        _ => file + ":"@ + natural_digits(line) + ":"@ + natural_digits(col) + ": "@ + summary(
            kind,
        ),
    }
}

fn append(out: &mut Vec<char>, s: &str)
    ensures
        final(out)@ == old(out)@ + s@,
{
    let cs = chars_of(s);
    let mut i: usize = 0;
    while i < cs.len()
        invariant
            i <= cs.len(),
            out@ == old(out)@ + cs@.take(i as int),
        decreases cs.len() - i,
    {
        out.push(cs[i]);
        i = i + 1;
        assert(out@ =~= old(out)@ + cs@.take(i as int));
    }
    assert(cs@.take(i as int) =~= cs@);
}

fn push_count(out: &mut Vec<char>, n: usize)
    ensures
        final(out)@ == old(out)@ + natural_digits(n as nat),
{
    push_digits(n as u64, out);
}

impl XplError {
    /// The words that describe what went wrong.
    pub fn summary(&self) -> (r: String)
        ensures
            r@ == summary(self.kind@),
    {
        let mut out: Vec<char> = Vec::new();
        match &self.kind {
            ErrorKind::IoFailure(m) => append(&mut out, m.as_str()),
            ErrorKind::MalformedDocument(m) => append(&mut out, m.as_str()),
            ErrorKind::StructuralError(Missing::Condition) => append(&mut out, "Missing condition"),
            ErrorKind::StructuralError(Missing::Then) => append(&mut out, "Missing then block"),
            ErrorKind::StructuralError(Missing::Else) => append(&mut out, "Missing else block"),
            ErrorKind::CircularInclude(p) => {
                append(&mut out, "Circular include of ");
                append(&mut out, p.as_str());
            },
            ErrorKind::UndefinedVariable(n) => {
                append(&mut out, "Undefined variable ");
                append(&mut out, n.as_str());
            },
            ErrorKind::UndefinedFunction(n) => {
                append(&mut out, "Undefined function ");
                append(&mut out, n.as_str());
            },
            ErrorKind::ArityMismatch { function, expected, actual } => {
                append(&mut out, "Expected ");
                push_count(&mut out, *expected);
                append(&mut out, " args for function '");
                append(&mut out, function.as_str());
                append(&mut out, "', got ");
                push_count(&mut out, *actual);
            },
            ErrorKind::DivisionByZero => append(&mut out, "Division by zero"),
            ErrorKind::UnsupportedExpression => append(&mut out, "Unsupported expression in eval"),
            ErrorKind::CallDepthExceeded => append(&mut out, "Call depth exceeded"),
            ErrorKind::NoMainFunction => append(&mut out, "No main function"),
        }
        assert(out@ =~= summary(self.kind@));
        string_of(&out)
    }

    /// The one-line report of the error.
    pub fn message(&self) -> (r: String)
        ensures
            r@ == report_text(self.kind@, self.file@, self.line as nat, self.col as nat),
    {
        let mut out: Vec<char> = Vec::new();
        match &self.kind {
            ErrorKind::IoFailure(m) => {
                append(&mut out, "IO error in ");
                append(&mut out, self.file.as_str());
                append(&mut out, ": ");
                append(&mut out, m.as_str());
            },
            ErrorKind::MalformedDocument(m) => {
                append(&mut out, "XML parse error in ");
                append(&mut out, self.file.as_str());
                append(&mut out, ": ");
                append(&mut out, m.as_str());
            },
            _ => {
                append(&mut out, self.file.as_str());
                append(&mut out, ":");
                push_count(&mut out, self.line);
                append(&mut out, ":");
                push_count(&mut out, self.col);
                append(&mut out, ": ");
                let s = self.summary();
                append(&mut out, s.as_str());
            },
        }
        assert(out@ =~= report_text(self.kind@, self.file@, self.line as nat, self.col as nat));
        string_of(&out)
    }
}

} // verus!
