use vstd::prelude::*;

pub mod machine;
pub mod node;
pub mod parser;
pub mod token;

use crate::machine::{
    EvalError, State, Streams, Conf, conf, fresh_tape, run_seq, eval_nodes,
    run_seq_keeps_cell_backed,
};
use crate::node::view_seq;
use crate::parser::{ParseError, parse, parse_spec};
use crate::token::{lex, lex_spec};

verus! {

/// Why a source text could not be run.
#[derive(Debug, Clone, Copy, PartialEq, Eq)]
pub enum Error {
    /// The brackets of the source do not balance.
    Parse(ParseError),
    /// Evaluation stopped.
    Eval(EvalError),
}

/// Lexes and parses `source`, then evaluates it on a fresh machine against
/// `io`, each loop entered making at most `limit` passes. On a parse error
/// nothing is evaluated and `io` is left as it was. Evaluation never meets a
/// cell without a backing entry.
pub fn execute(source: &str, io: &mut Streams, limit: u64) -> (r: Result<State, Error>)
    ensures
        r != Err::<State, Error>(Error::Eval(EvalError::InvariantViolation)),
        match parse_spec(lex_spec(source@)) {
            Err(e) => r == Err::<State, Error>(Error::Parse(e)) && *final(io) == *old(io),
            Ok(p) => match run_seq(p, Conf { tape: fresh_tape(), io: old(io)@ }, limit as nat) {
                Ok(c) => r is Ok && conf(r->Ok_0, *final(io)) == c,
                Err(e) => r == Err::<State, Error>(Error::Eval(e)),
            },
        },
{
    let tokens = lex(source);
    let nodes = match parse(tokens) {
        Ok(nodes) => nodes,
        Err(e) => {
            return Err(Error::Parse(e));
        },
    };
    let mut state = State::new();
    proof {
        run_seq_keeps_cell_backed(view_seq(nodes@), conf(state, *io), limit as nat);
    }
    match eval_nodes(&nodes, &mut state, io, limit) {
        Ok(()) => Ok(state),
        Err(e) => Err(Error::Eval(e)),
    }
}

} // verus!
