//! How a parse fails: where, and why.

use vstd::prelude::*;
use crate::symbol::Symbol;

verus! {

/// Why the parser gave up.
#[derive(Debug, Clone, Copy, PartialEq, Eq)]
pub enum Reason {
    /// The input ended where a token was still due.
    UnexpectedEnd,
    /// A variable was due, or an operand of an application, and the input
    /// ended or held something else.
    ExpectedVariable,
    /// The given token was due, and the input held something else.
    ExpectedToken(Symbol),
    /// An opening parenthesis has no closing parenthesis of its own.
    UnbalancedParentheses,
    /// A complete expression is followed by more input.
    TrailingInput,
    /// An expression stands deeper inside others than the parser follows.
    TooDeep,
}

/// A failure of the parser, as the grammar speaks of it: the number of
/// characters before the place of the failure, and the reason.
pub struct Failure {
    pub offset: nat,
    pub reason: Reason,
}

impl Failure {
    /// The same failure, seen from `base` characters further to the left.
    pub open spec fn shifted(self, base: nat) -> Failure {
        Failure { offset: self.offset + base, reason: self.reason }
    }

    /// Of two failures the one that got further; the first where both got
    /// equally far.
    pub open spec fn or_further(self, other: Failure) -> Failure {
        if other.offset > self.offset {
            other
        } else {
            self
        }
    }
}

/// A failure of the parser: the offset of the failure in the input, counted
/// in characters, and the reason.
#[derive(Debug, Clone, Copy, PartialEq, Eq)]
pub struct ParseError {
    pub offset: usize,
    pub reason: Reason,
}

impl View for ParseError {
    type V = Failure;

    open spec fn view(&self) -> Failure {
        Failure { offset: self.offset as nat, reason: self.reason }
    }
}

impl ParseError {
    /// The same failure, seen from `base` characters further to the left.
    pub fn shifted(self, base: usize) -> (r: ParseError)
        requires
            self.offset + base <= usize::MAX,
        ensures
            r@ == self@.shifted(base as nat),
    {
        ParseError { offset: self.offset + base, reason: self.reason }
    }

    /// Of two failures the one that got further; the first where both got
    /// equally far.
    pub fn or_further(self, other: ParseError) -> (r: ParseError)
        ensures
            r@ == self@.or_further(other@),
    {
        if other.offset > self.offset {
            other
        } else {
            self
        }
    }
}

/// What was read and how much, or the failure, as the grammar speaks of
/// them.
pub open spec fn seen<T>(r: Result<(T, usize), ParseError>) -> Result<(T, nat), Failure> {
    match r {
        Ok((t, n)) => Ok((t, n as nat)),
        Err(e) => Err(e@),
    }
}

/// The result, with the failure as the grammar speaks of it.
pub open spec fn seen_whole<T>(r: Result<T, ParseError>) -> Result<T, Failure> {
    match r {
        Ok(t) => Ok(t),
        Err(e) => Err(e@),
    }
}

} // verus!
