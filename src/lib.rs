use vstd::prelude::*;

pub mod ast;
pub mod bytecode;
pub mod codegen;
pub mod compiler;
pub mod lexer;
pub mod parser;
pub mod vm;

use crate::bytecode::ByteCode;
use crate::codegen::compiled;
use crate::compiler::{compile, name_error, source_tree, CompileError};
use crate::vm::{execute, run_result, RuntimeError, Value};

verus! {

/// Why running a source text failed: before any code ran, or during the run.
#[derive(Debug, Clone, PartialEq, Eq)]
pub enum RunError {
    Compile(CompileError),
    Runtime(RuntimeError),
}

/// The outcome of running a compiled program in a fresh machine.
pub open spec fn run_outcome(program: ByteCode) -> Result<Value, RunError> {
    match run_result(program) {
        Ok(v) => Ok(v),
        Err(e) => Err(RunError::Runtime(e)),
    }
}

/// Compiles `source` and runs it in a fresh machine. A program that does
/// not compile never starts.
pub fn run_source(source: &str) -> (r: Result<Value, RunError>)
    ensures
        match source_tree(source@) {
            Err(e) => r == Err::<Value, RunError>(RunError::Compile(e)),
            Ok(t) => match compiled(t) {
                Some(v) => exists|b: ByteCode| b@ == v && b.wf() && r == #[trigger] run_outcome(b),
                None => r matches Err(RunError::Compile(x)) && name_error(x),
            },
        },
{
    match compile(source) {
        Ok(program) => {
            let r = run_program(&program);
            assert(program.wf() && r == run_outcome(program) && program@ == program@);
            r
        },
        Err(e) => Err(RunError::Compile(e)),
    }
}

/// Runs a compiled program in a fresh machine; programs can be run any
/// number of times, each run with its own state.
pub fn run_program(program: &ByteCode) -> (r: Result<Value, RunError>)
    requires
        program.wf(),
    ensures
        r == run_outcome(*program),
{
    match execute(program) {
        Ok(v) => Ok(v),
        Err(e) => Err(RunError::Runtime(e)),
    }
}

} // verus!
