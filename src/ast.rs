//! The abstract syntax tree and its builders.
use vstd::prelude::*;

verus! {

/// A regular-expression syntax tree. Each node owns its children.
#[derive(Debug, PartialEq, Eq)]
pub enum ReAst {
    /// Concatenation: the left tree followed by the right one.
    Concat(Box<ReAst>, Box<ReAst>),
    /// Zero or more repetitions of the operand.
    Star(Box<ReAst>),
    /// Alternation: the left tree or the right one.
    Pipe(Box<ReAst>, Box<ReAst>),
    /// One literal character.
    Ch(char),
    /// The empty expression; only ever a whole tree, or the last branch of a
    /// top-level alternation.
    Empty,
}

/// Errors that end a parse.
#[derive(Debug, PartialEq, Eq, Clone, Copy)]
pub enum ParseError {
    /// `*`, `|` or `)` where no operand or open group allows it.
    UnexpectedCharacter(char),
    /// The input ended inside an open group.
    UnexpectedEndOfInput,
    /// A group (or a group's alternative) closed before holding anything.
    EmptyGroup,
    /// The star rewrite reached an empty tree: a defect of the parser itself,
    /// never caused by the input.
    InternalInvariantViolation,
}

/// True when the tree holds no `Empty` node anywhere.
pub open spec fn no_empty(t: ReAst) -> bool
    decreases t,
{
    match t {
        ReAst::Concat(l, r) => no_empty(*l) && no_empty(*r),
        ReAst::Star(x) => no_empty(*x),
        ReAst::Pipe(l, r) => no_empty(*l) && no_empty(*r),
        ReAst::Ch(_) => true,
        ReAst::Empty => false,
    }
}

/// Applies a star to the rightmost atom of `t`: a character becomes its own
/// star, and the rewrite goes down the right child of a concatenation or an
/// alternation and into the operand of a star. `None` when it reaches `Empty`.
pub open spec fn star_rewrite(t: ReAst) -> Option<ReAst>
    decreases t,
{
    match t {
        ReAst::Ch(c) => Some(ReAst::Star(Box::new(ReAst::Ch(c)))),
        ReAst::Concat(l, r) => match star_rewrite(*r) {
            Some(r2) => Some(ReAst::Concat(l, Box::new(r2))),
            None => None,
        },
        ReAst::Pipe(l, r) => match star_rewrite(*r) {
            Some(r2) => Some(ReAst::Pipe(l, Box::new(r2))),
            None => None,
        },
        ReAst::Star(x) => match star_rewrite(*x) {
            Some(x2) => Some(ReAst::Star(Box::new(x2))),
            None => None,
        },
        ReAst::Empty => None,
    }
}

impl ReAst {
    /// The concatenation of `l` and `r`.
    pub fn seq(l: ReAst, r: ReAst) -> (t: ReAst)
        ensures
            t == ReAst::Concat(Box::new(l), Box::new(r)),
    {
        ReAst::Concat(Box::new(l), Box::new(r))
    }

    /// Zero or more repetitions of `l`.
    pub fn star(l: ReAst) -> (t: ReAst)
        ensures
            t == ReAst::Star(Box::new(l)),
    {
        ReAst::Star(Box::new(l))
    }

    /// The alternation of `l` and `r`.
    pub fn pipe(l: ReAst, r: ReAst) -> (t: ReAst)
        ensures
            t == ReAst::Pipe(Box::new(l), Box::new(r)),
    {
        ReAst::Pipe(Box::new(l), Box::new(r))
    }

    /// Puts the rightmost atom of `ast` under a star. Reaching an `Empty`
    /// node is reported as an internal invariant violation.
    pub fn add_star(ast: ReAst) -> (r: Result<ReAst, ParseError>)
        ensures
            r == match star_rewrite(ast) {
                Some(t) => Ok(t),
                None => Err::<ReAst, ParseError>(ParseError::InternalInvariantViolation),
            },
            no_empty(ast) ==> r is Ok,
            r matches Ok(t) ==> (no_empty(t) <==> no_empty(ast)),
        decreases ast,
    {
        match ast {
            ReAst::Ch(c) => Ok(ReAst::star(ReAst::Ch(c))),
            ReAst::Concat(l, r) => match ReAst::add_star(*r) {
                Ok(r2) => Ok(ReAst::seq(*l, r2)),
                Err(e) => Err(e),
            },
            ReAst::Pipe(l, r) => match ReAst::add_star(*r) {
                Ok(r2) => Ok(ReAst::pipe(*l, r2)),
                Err(e) => Err(e),
            },
            ReAst::Star(x) => match ReAst::add_star(*x) {
                Ok(x2) => Ok(ReAst::star(x2)),
                Err(e) => Err(e),
            },
            ReAst::Empty => Err(ParseError::InternalInvariantViolation),
        }
    }
}

} // verus!
