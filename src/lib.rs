//! An interpreter for XPL, a small language whose programs are XML
//! documents: functions, statements and expressions are elements.
//!
//! Loading turns a document and the files it includes into a [`Program`];
//! the [`VM`] runs the program's `main` function and collects what it
//! prints. Reading files is left to the caller, who hands the loader a
//! [`SourceTable`] of what each path held and adds the paths it asks for.
use vstd::prelude::*;

pub mod ast;
pub mod builder;
pub mod error;
pub mod laws;
pub mod loader;
pub mod position;
pub mod text;
pub mod vm;
pub mod xml;

pub use ast::{BinOp, Expr, Function, Param, Program, Stmt};
pub use error::{ErrorKind, XplError};
pub use loader::{SourceEntry, SourceState, SourceTable};
pub use vm::VM;

use ast::{FunctionM, ProgramM};
use builder::function_index;
use error::Fault;
use loader::{entry_index, find_entry, load_file, Loading, LoadM, SourceM};
use vm::{lines_model, reports, run_main};

verus! {

/// The outcome of parsing a file and its includes.
#[derive(Debug)]
pub enum ParseOutcome {
    Parsed(Program),
    /// The text of this path is needed: add what reading it gives to the
    /// table and ask again.
    NeedFile(String),
    Failed(XplError),
}

/// The outcome of running a file.
#[derive(Debug)]
pub enum RunOutcome {
    Finished(Vec<String>),
    /// The text of this path is needed: add what reading it gives to the
    /// table and ask again.
    NeedFile(String),
    Failed(XplError),
}

/// Whether an error is the load fault `f` in `file`, at the unknown
/// position.
pub open spec fn load_error(e: XplError, f: Fault, file: Seq<char>) -> bool {
    e.kind@ == f && e.file@ == file && e.line == 0 && e.col == 0
}

/// The program that loading the file at `path` gives, where it succeeds.
pub open spec fn program_of(d: Option<Seq<char>>, fs: Seq<FunctionM>) -> ProgramM {
    ProgramM { description: d, functions: fs }
}

/// The text recorded for `path`, or nothing.
pub open spec fn text_at(t: Seq<(Seq<char>, SourceM)>, path: Seq<char>) -> Seq<char> {
    match entry_index(t, path) {
        Some(i) => match t[i].1 {
            SourceM::Loaded { canonical, text } => text,
            _ => seq![],
        },
        None => seq![],
    }
}

/// Whether a parse outcome is what loading gives.
pub open spec fn parse_agrees(r: ParseOutcome, m: LoadM) -> bool {
    match m {
        LoadM::Ready(d, fs) => r is Parsed && r->Parsed_0@ == program_of(d, fs),
        LoadM::Need(p) => r is NeedFile && r->NeedFile_0@ == p,
        LoadM::Fail(f, file) => r is Failed && load_error(r->Failed_0, f, file),
    }
}

/// Parses the file at `path` and, transitively, the files it includes.
pub fn parse_file(path: &str, sources: &SourceTable) -> (r: ParseOutcome)
    ensures
        parse_agrees(r, load_file(sources@, path@, seq![])),
        r is Parsed ==> builder::unique_names(r->Parsed_0@.functions),
{
    proof {
        loader::loaded_names_are_unique(sources@, path@, seq![]);
    }
    let mut chain: Vec<String> = Vec::new();
    assert(loader::texts(chain@) =~= seq![]);
    match loader::load_document(sources, path, &mut chain) {
        Loading::Ready(description, functions) => ParseOutcome::Parsed(
            Program { description, functions },
        ),
        Loading::Need(p) => ParseOutcome::NeedFile(p),
        Loading::Fail(kind, file) => ParseOutcome::Failed(XplError { kind, file, line: 0, col: 0 }),
    }
}

/// The text of the file at `path` as the table records it.
fn recorded_text(sources: &SourceTable, path: &str) -> (r: String)
    ensures
        r@ == text_at(sources@, path@),
{
    match find_entry(sources, path) {
        Some(i) => {
            assert(sources@[i as int].1 == loader::state_model(sources.entries@[i as int].state));
            match &sources.entries[i].state {
                SourceState::Loaded { canonical: _, text } => text.clone(),
                _ => String::new(),
            }
        },
        None => String::new(),
    }
}

/// Parses the file at `path` with its includes and runs its `main`
/// function: the printed lines, or the first error. A program without
/// `main` prints nothing and succeeds.
pub fn run_file(path: &str, sources: &SourceTable) -> (r: RunOutcome)
    ensures
        match load_file(sources@, path@, seq![]) {
            LoadM::Need(p) => r is NeedFile && r->NeedFile_0@ == p,
            LoadM::Fail(f, file) => r is Failed && load_error(r->Failed_0, f, file),
            LoadM::Ready(d, fs) => if function_index(fs, "main"@) is None {
                r is Finished && r->Finished_0@.len() == 0
            } else {
                match run_main(program_of(d, fs), seq![]) {
                    Ok(st) => r is Finished && lines_model(r->Finished_0@) == st.out,
                    Err(f) => r is Failed && reports(
                        r->Failed_0,
                        f,
                        path@,
                        text_at(sources@, path@),
                    ),
                }
            },
        },
{
    let program = match parse_file(path, sources) {
        ParseOutcome::Parsed(p) => p,
        ParseOutcome::NeedFile(p) => {
            return RunOutcome::NeedFile(p);
        },
        ParseOutcome::Failed(e) => {
            return RunOutcome::Failed(e);
        },
    };
    if vm::function_position(&program, "main").is_none() {
        return RunOutcome::Finished(Vec::new());
    }
    let mut vm = VM::new(path.to_owned(), recorded_text(sources, path));
    match vm.run(&program) {
        Ok(lines) => RunOutcome::Finished(lines),
        Err(e) => RunOutcome::Failed(e),
    }
}

} // verus!
