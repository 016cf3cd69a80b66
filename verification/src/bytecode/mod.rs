//! The bytecode interpreter: a compiler from tokens to a chunk of
//! instructions, and a virtual machine that runs the chunk. It knows
//! arithmetic on numbers only.
pub mod compiler;
pub mod ops;
pub mod virtual_machine;

use crate::bytecode::compiler::{compile, expression, nothing};
use crate::bytecode::ops::{Chunk, OpCode};
use crate::bytecode::virtual_machine::RuntimeError;
use crate::shared::results::{failures, partition, successes};
use crate::shared::scanner::{items, represents, scan, ScannerError, Token};
use crate::shared::streams::Streams;
use crate::walker::{lines, report_scanner, reported, scanner_texts, untouched, InterpreterError};
use vstd::prelude::*;

verus! {

/// What `load` makes of a source, by way of what the scanner gave, `scanned`.
///
/// The scanner's errors are all reported, one on a line, and the run fails at
/// the scanner. Else the tokens are compiled; an error of the compiler is
/// reported and counts as a failure of the evaluation. The chunk that is
/// ready to run ends in a `Return`.
pub open spec fn loaded_through(
    source: Seq<char>,
    before: Streams,
    r: Result<Chunk, InterpreterError>,
    after: Streams,
    scanned: Seq<Result<Token, ScannerError>>,
) -> bool {
    &&& scanned.len() == items(source, 0).len()
    &&& forall|i: int|
        0 <= i < scanned.len() ==> represents(#[trigger] scanned[i], source, items(source, 0)[i])
    &&& if failures(scanned).len() > 0 {
        &&& r matches Err(e)
        &&& e == InterpreterError::Scanner
        &&& reported(before, after, lines(scanner_texts(failures(scanned))))
    } else {
        let compiled = expression(successes(scanned), 0, nothing());
        match compiled.result {
            Ok(()) => {
                &&& r matches Ok(chunk)
                &&& chunk@ == compiled.chunk.with(OpCode::Return, 0)
                &&& untouched(before, after)
            },
            Err(error) => {
                &&& r matches Err(e)
                &&& e == InterpreterError::Evaluation
                &&& reported(before, after, error.text().push('\n'))
            },
        }
    }
}

/// What `load` makes of a source.
pub open spec fn loaded(
    source: Seq<char>,
    before: Streams,
    r: Result<Chunk, InterpreterError>,
    after: Streams,
) -> bool {
    exists|scanned: Seq<Result<Token, ScannerError>>| #[trigger]
        loaded_through(source, before, r, after, scanned)
}

/// Makes a source ready to run: scans it and compiles the tokens. The errors
/// of the stage that fails are written to the report of errors.
pub fn load(source: &str, streams: &mut Streams) -> (r: Result<Chunk, InterpreterError>)
    ensures
        loaded(source@, *old(streams), r, *final(streams)),
{
    let scanned = scan(source);
    let ghost scanned_view = scanned@;
    let (tokens, errors) = partition(scanned);
    if errors.len() > 0 {
        report_scanner(streams, &errors);
        let r = Err(InterpreterError::Scanner);
        assert(loaded_through(source@, *old(streams), r, *streams, scanned_view));
        return r;
    }
    match compile(&tokens) {
        Ok(chunk) => {
            let mut chunk = chunk;
            chunk.write(OpCode::Return, 0);
            let r = Ok(chunk);
            assert(loaded_through(source@, *old(streams), r, *streams, scanned_view));
            r
        },
        Err(e) => {
            let mut text = e.to_string();
            text.push('\n');
            streams.write_error(text.as_str());
            let r = Err(InterpreterError::Evaluation);
            assert(loaded_through(source@, *old(streams), r, *streams, scanned_view));
            r
        },
    }
}

/// Reports the error that stopped the machine: its message is written to the
/// report of errors, on a line, and the run fails at the evaluation.
pub fn report(error: &RuntimeError, streams: &mut Streams) -> (r: InterpreterError)
    ensures
        r == InterpreterError::Evaluation,
        reported(*old(streams), *final(streams), error@.text().push('\n')),
{
    let mut text = error.to_string();
    text.push('\n');
    streams.write_error(text.as_str());
    InterpreterError::Evaluation
}

} // verus!
