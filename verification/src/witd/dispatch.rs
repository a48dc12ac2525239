//! From a command line to the process that is to be started for it.
//!
//! A command line is split at ASCII whitespace. There is no quoting and no
//! escaping: the first token names the program, the others are its
//! arguments.

use crate::text::{ascii_tokens, split_ascii_whitespace};
use vstd::prelude::*;

verus! {

/// A program to start, and the arguments to start it with.
#[derive(Debug, PartialEq)]
pub struct Invocation {
    pub program: String,
    pub args: Vec<String>,
}

/// The mathematical content of an [`Invocation`].
pub struct InvocationView {
    pub program: Seq<char>,
    pub args: Seq<Seq<char>>,
}

impl View for Invocation {
    type V = InvocationView;

    open spec fn view(&self) -> InvocationView {
        InvocationView { program: self.program@, args: self.args.deep_view() }
    }
}

/// What a command line asks to start: nothing where it holds no token.
pub open spec fn invoked(line: Seq<char>) -> Option<InvocationView> {
    let tokens = ascii_tokens(line);
    if tokens.len() == 0 {
        None
    } else {
        Some(InvocationView { program: tokens[0], args: tokens.skip(1) })
    }
}

impl Invocation {
    /// Splits a command line into the program and its arguments.
    pub fn of(line: &str) -> (r: Option<Invocation>)
        ensures
            match r {
                Some(invocation) => invoked(line@) == Some(invocation@),
                None => invoked(line@) is None,
            },
    {
        let mut tokens = split_ascii_whitespace(line);
        if tokens.len() == 0 {
            return None;
        }
        let ghost all = tokens.deep_view();
        let program = tokens.remove(0);
        assert(tokens.deep_view() =~= all.skip(1));
        Some(Invocation { program, args: tokens })
    }
}

} // verus!
