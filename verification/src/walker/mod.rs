//! The tree-walking interpreter: syntax tree, parser, resolver and evaluator,
//! and the way of a source text through them.
pub mod agreement;
pub mod ast;
pub mod depths;
pub mod environment;
pub mod errors;
pub mod fitting;
pub mod grammar;
pub mod interpreter;
pub mod machine;
pub mod parser;
pub mod resolver;
pub mod soundness;
pub mod store;
pub mod values;

use crate::shared::results::{failures, partition, successes};
use crate::shared::scanner::{items, represents, scan, ScannerError, Token};
use crate::shared::streams::Streams;
use crate::walker::ast::Stmt;
use crate::walker::depths::stmts_fit;
use crate::walker::errors::RuntimeError;
use crate::walker::fitting::lemma_program_resolves_fit;
use crate::walker::grammar::program;
use crate::walker::parser::{parse, read_program, ParserError};
use crate::walker::resolver::{resolve, resolve_program, Locals};
use vstd::prelude::*;
use vstd::utf8::encode_utf8;

verus! {

/// The stage at which a run failed.
#[derive(Clone, Copy, PartialEq, Eq, Debug, Structural)]
pub enum InterpreterError {
    Scanner,
    Parser,
    Resolver,
    Evaluation,
    Internal,
}

impl InterpreterError {
    /// The message that names the stage.
    pub open spec fn text(self) -> Seq<char> {
        match self {
            InterpreterError::Scanner => "Scanner error"@,
            InterpreterError::Parser => "Parser error"@,
            InterpreterError::Resolver => "Resolver error"@,
            InterpreterError::Evaluation => "Evaluation error"@,
            InterpreterError::Internal => "Internal error"@,
        }
    }

    /// The message that names the stage.
    pub fn to_string(&self) -> (r: String)
        ensures
            r@ == self.text(),
    {
        match self {
            InterpreterError::Scanner => String::from_str("Scanner error"),
            InterpreterError::Parser => String::from_str("Parser error"),
            InterpreterError::Resolver => String::from_str("Resolver error"),
            InterpreterError::Evaluation => String::from_str("Evaluation error"),
            InterpreterError::Internal => String::from_str("Internal error"),
        }
    }
}

/// A program that is ready to run: its tokens, its statements, and the depth
/// table of its variable references.
pub struct Program {
    pub tokens: Vec<Token>,
    pub statements: Vec<Stmt>,
    pub locals: Locals,
}

/// The messages, each on a line of its own.
pub open spec fn lines(messages: Seq<Seq<char>>) -> Seq<char>
    decreases messages.len(),
{
    if messages.len() == 0 {
        Seq::empty()
    } else {
        lines(messages.drop_last()) + messages.last().push('\n')
    }
}

/// The messages of the scanner's errors.
pub open spec fn scanner_texts(errors: Seq<ScannerError>) -> Seq<Seq<char>> {
    Seq::new(errors.len(), |i: int| errors[i].text())
}

/// The messages of the parser's errors.
pub open spec fn parser_texts(errors: Seq<ParserError>) -> Seq<Seq<char>> {
    Seq::new(errors.len(), |i: int| errors[i].text())
}

/// Between `before` and `after`, `text` was added to the report of errors,
/// and nothing else was written.
pub open spec fn reported(before: Streams, after: Streams, text: Seq<char>) -> bool {
    &&& after.error@ == before.error@ + encode_utf8(text)
    &&& after.input@ == before.input@
    &&& after.output@ == before.output@
}

/// Between `before` and `after` nothing was written.
pub open spec fn untouched(before: Streams, after: Streams) -> bool {
    &&& after.error@ == before.error@
    &&& after.input@ == before.input@
    &&& after.output@ == before.output@
}

/// What `load` makes of a source, by way of what the scanner gave, `scanned`,
/// and what the parser gave, `parsed`.
///
/// A stage is reached only if the one before it found no error. Each stage
/// reports all the errors that it found, one on a line, and the run fails
/// with the name of the stage. The depth table of a program that is ready
/// to run fits the program: every depth in it is less than the number of
/// scopes around its reference.
pub open spec fn loaded_through(
    source: Seq<char>,
    before: Streams,
    r: Result<Program, InterpreterError>,
    after: Streams,
    scanned: Seq<Result<Token, ScannerError>>,
    parsed: Seq<Result<Stmt, ParserError>>,
) -> bool {
    &&& scanned.len() == items(source, 0).len()
    &&& forall|i: int|
        0 <= i < scanned.len() ==> represents(#[trigger] scanned[i], source, items(source, 0)[i])
    &&& if failures(scanned).len() > 0 {
        &&& r matches Err(e)
        &&& e == InterpreterError::Scanner
        &&& reported(before, after, lines(scanner_texts(failures(scanned))))
    } else {
        &&& read_program(parsed, program(successes(scanned), 0))
        &&& if failures(parsed).len() > 0 {
            &&& r matches Err(e)
            &&& e == InterpreterError::Parser
            &&& reported(before, after, lines(parser_texts(failures(parsed))))
        } else {
            match resolve_program(successes(parsed)) {
                Ok(locals) => {
                    &&& r matches Ok(p)
                    &&& p.tokens@ == successes(scanned)
                    &&& p.statements@ == successes(parsed)
                    &&& p.locals@ == locals
                    &&& stmts_fit(locals, p.statements@, 0, 1)
                    &&& untouched(before, after)
                },
                Err(msg) => {
                    &&& r matches Err(e)
                    &&& e == InterpreterError::Resolver
                    &&& reported(before, after, msg.push('\n'))
                },
            }
        }
    }
}

/// What `load` makes of a source.
pub open spec fn loaded(
    source: Seq<char>,
    before: Streams,
    r: Result<Program, InterpreterError>,
    after: Streams,
) -> bool {
    exists|scanned: Seq<Result<Token, ScannerError>>, parsed: Seq<Result<Stmt, ParserError>>|
        #[trigger] loaded_through(source, before, r, after, scanned, parsed)
}

pub(crate) fn report_scanner(streams: &mut Streams, errors: &Vec<ScannerError>)
    ensures
        reported(*old(streams), *final(streams), lines(scanner_texts(errors@))),
{
    let mut text = String::new();
    let mut i: usize = 0;
    assert(scanner_texts(errors@).take(0) =~= Seq::empty());
    while i < errors.len()
        invariant
            i <= errors.len(),
            text@ == lines(scanner_texts(errors@).take(i as int)),
        decreases errors.len() - i,
    {
        let message = errors[i].to_string();
        text.append(message.as_str());
        text.push('\n');
        i += 1;
        proof {
            let all = scanner_texts(errors@);
            assert(all.take(i as int).drop_last() =~= all.take(i - 1));
            assert(all.take(i as int).last() == errors@[i - 1].text());
        }
    }
    assert(scanner_texts(errors@).take(errors@.len() as int) =~= scanner_texts(errors@));
    streams.write_error(text.as_str());
}

fn report_parser(streams: &mut Streams, errors: &Vec<ParserError>)
    ensures
        reported(*old(streams), *final(streams), lines(parser_texts(errors@))),
{
    let mut text = String::new();
    let mut i: usize = 0;
    assert(parser_texts(errors@).take(0) =~= Seq::empty());
    while i < errors.len()
        invariant
            i <= errors.len(),
            text@ == lines(parser_texts(errors@).take(i as int)),
        decreases errors.len() - i,
    {
        let message = errors[i].to_string();
        text.append(message.as_str());
        text.push('\n');
        i += 1;
        proof {
            let all = parser_texts(errors@);
            assert(all.take(i as int).drop_last() =~= all.take(i - 1));
            assert(all.take(i as int).last() == errors@[i - 1].text());
        }
    }
    assert(parser_texts(errors@).take(errors@.len() as int) =~= parser_texts(errors@));
    streams.write_error(text.as_str());
}

/// Makes a source ready to run: scans it, parses the tokens and resolves the
/// statements. The errors of the first stage that finds any are written to
/// the report of errors, and the run fails with the name of that stage.
pub fn load(source: &str, streams: &mut Streams) -> (r: Result<Program, InterpreterError>)
    ensures
        loaded(source@, *old(streams), r, *final(streams)),
{
    let scanned = scan(source);
    let ghost scanned_view = scanned@;
    let (tokens, errors) = partition(scanned);
    if errors.len() > 0 {
        report_scanner(streams, &errors);
        let r = Err(InterpreterError::Scanner);
        assert(loaded_through(
            source@,
            *old(streams),
            r,
            *streams,
            scanned_view,
            Seq::<Result<Stmt, ParserError>>::empty(),
        ));
        return r;
    }
    let parsed = parse(&tokens);
    let ghost parsed_view = parsed@;
    let (statements, errors) = partition(parsed);
    if errors.len() > 0 {
        report_parser(streams, &errors);
        let r = Err(InterpreterError::Parser);
        assert(loaded_through(source@, *old(streams), r, *streams, scanned_view, parsed_view));
        return r;
    }
    match resolve(statements.as_slice()) {
        Ok(locals) => {
            proof {
                lemma_program_resolves_fit(statements@);
            }
            let r = Ok(Program { tokens, statements, locals });
            assert(loaded_through(source@, *old(streams), r, *streams, scanned_view, parsed_view));
            r
        },
        Err(e) => {
            let mut text = e.to_string();
            text.push('\n');
            streams.write_error(text.as_str());
            let r = Err(InterpreterError::Resolver);
            assert(loaded_through(source@, *old(streams), r, *streams, scanned_view, parsed_view));
            r
        },
    }
}

/// Reports the error that stopped the evaluation: its message is written to
/// the report of errors, on a line, and the run fails at the evaluation.
pub fn report<'a>(error: &RuntimeError<'a>, streams: &mut Streams) -> (r: InterpreterError)
    ensures
        r == InterpreterError::Evaluation,
        reported(*old(streams), *final(streams), error@.text().push('\n')),
{
    let mut text = error.to_string();
    text.push('\n');
    streams.write_error(text.as_str());
    InterpreterError::Evaluation
}

} // verus!
