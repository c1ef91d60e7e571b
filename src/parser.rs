//! The parser: four states, at top level or inside a group, each either at
//! the start of an expression or continuing a left operand already built.
//! Every state reads one character and never steps back.
use vstd::prelude::*;
use crate::ast::{ReAst, ParseError, star_rewrite};
use crate::cursor::Cursor;

verus! {

/// Start of the whole expression, or of a top-level alternative. On success
/// gives the tree and the position after the characters consumed.
pub open spec fn top_entry(s: Seq<char>, i: int) -> Result<(ReAst, int), ParseError>
    decreases s.len() - i,
{
    if !(0 <= i < s.len()) {
        Ok((ReAst::Empty, i))
    } else {
        let c = s[i];
        if c == '(' {
            match group_entry(s, i + 1) {
                Ok((g, j)) => if i < j <= s.len() {
                    top_cont(s, j, g)
                } else {
                    Err(ParseError::InternalInvariantViolation)
                },
                Err(e) => Err(e),
            }
        } else if c == '*' || c == '|' || c == ')' {
            Err(ParseError::UnexpectedCharacter(c))
        } else {
            top_cont(s, i + 1, ReAst::Ch(c))
        }
    }
}

/// Top level, extending the left operand `l`.
pub open spec fn top_cont(s: Seq<char>, i: int, l: ReAst) -> Result<(ReAst, int), ParseError>
    decreases s.len() - i,
{
    if !(0 <= i < s.len()) {
        Ok((l, i))
    } else {
        let c = s[i];
        if c == ')' {
            Err(ParseError::UnexpectedCharacter(c))
        } else if c == '(' {
            match group_entry(s, i + 1) {
                Ok((g, j)) => if i < j <= s.len() {
                    top_cont(s, j, ReAst::Concat(Box::new(l), Box::new(g)))
                } else {
                    Err(ParseError::InternalInvariantViolation)
                },
                Err(e) => Err(e),
            }
        } else if c == '*' {
            match star_rewrite(l) {
                Some(t) => top_cont(s, i + 1, t),
                None => Err(ParseError::InternalInvariantViolation),
            }
        } else if c == '|' {
            match top_entry(s, i + 1) {
                Ok((r, j)) => Ok((ReAst::Pipe(Box::new(l), Box::new(r)), j)),
                Err(e) => Err(e),
            }
        } else {
            top_cont(s, i + 1, ReAst::Concat(Box::new(l), Box::new(ReAst::Ch(c))))
        }
    }
}

/// Just after an opening parenthesis, or after `|` inside a group. On
/// success the position is the one after the closing parenthesis.
pub open spec fn group_entry(s: Seq<char>, i: int) -> Result<(ReAst, int), ParseError>
    decreases s.len() - i,
{
    if !(0 <= i < s.len()) {
        Err(ParseError::UnexpectedEndOfInput)
    } else {
        let c = s[i];
        if c == '(' {
            match group_entry(s, i + 1) {
                Ok((g, j)) => if i < j <= s.len() {
                    group_cont(s, j, g)
                } else {
                    Err(ParseError::InternalInvariantViolation)
                },
                Err(e) => Err(e),
            }
        } else if c == ')' {
            Err(ParseError::EmptyGroup)
        } else if c == '*' || c == '|' {
            Err(ParseError::UnexpectedCharacter(c))
        } else {
            group_cont(s, i + 1, ReAst::Ch(c))
        }
    }
}

/// Inside a group, extending the left operand `l`.
pub open spec fn group_cont(s: Seq<char>, i: int, l: ReAst) -> Result<(ReAst, int), ParseError>
    decreases s.len() - i,
{
    if !(0 <= i < s.len()) {
        Err(ParseError::UnexpectedEndOfInput)
    } else {
        let c = s[i];
        if c == ')' {
            Ok((l, i + 1))
        } else if c == '(' {
            match group_entry(s, i + 1) {
                Ok((g, j)) => if i < j <= s.len() {
                    group_cont(s, j, ReAst::Concat(Box::new(l), Box::new(g)))
                } else {
                    Err(ParseError::InternalInvariantViolation)
                },
                Err(e) => Err(e),
            }
        } else if c == '*' {
            match star_rewrite(l) {
                Some(t) => group_cont(s, i + 1, t),
                None => Err(ParseError::InternalInvariantViolation),
            }
        } else if c == '|' {
            match group_entry(s, i + 1) {
                Ok((r, j)) => Ok((ReAst::Pipe(Box::new(l), Box::new(r)), j)),
                Err(e) => Err(e),
            }
        } else {
            group_cont(s, i + 1, ReAst::Concat(Box::new(l), Box::new(ReAst::Ch(c))))
        }
    }
}

/// What parsing the whole of `s` gives.
pub open spec fn parse_regex(s: Seq<char>) -> Result<ReAst, ParseError> {
    match top_entry(s, 0) {
        Ok((t, _)) => Ok(t),
        Err(e) => Err(e),
    }
}

/// The executable result `r`, with the cursor left at `pos`, is the state's
/// outcome `o`.
pub open spec fn agrees(o: Result<(ReAst, int), ParseError>, r: Result<ReAst, ParseError>, pos: int) -> bool {
    match o {
        Ok((t, j)) => r == Ok::<ReAst, ParseError>(t) && pos == j,
        Err(e) => r == Err::<ReAst, ParseError>(e),
    }
}

/// A literal character at the start of an expression becomes the left
/// operand of the continuation state.
proof fn lemma_entry_literal(s: Seq<char>, i: int, c: char)
    requires
        0 <= i < s.len(),
        s[i] == c,
        c != '(' && c != ')' && c != '*' && c != '|',
    ensures
        top_entry(s, i) == top_cont(s, i + 1, ReAst::Ch(c)),
        group_entry(s, i) == group_cont(s, i + 1, ReAst::Ch(c)),
{
}

impl ReAst {
    /// Parses the whole of `re`.
    pub fn new(re: &str) -> (r: Result<ReAst, ParseError>)
        ensures
            r == parse_regex(re@),
    {
        let mut buf = Cursor::new(re);
        ReAst::parse(&mut buf)
    }

    /// Top level, start of an expression: reads the rest of the input.
    pub fn parse(buf: &mut Cursor) -> (r: Result<ReAst, ParseError>)
        requires
            old(buf).wf(),
        ensures
            final(buf).wf(),
            final(buf).text() == old(buf).text(),
            old(buf).pos() <= final(buf).pos(),
            agrees(top_entry(old(buf).text(), old(buf).pos()), r, final(buf).pos()),
        decreases old(buf).text().len() - old(buf).pos(),
    {
        match buf.next() {
            Some('*') => Err(ParseError::UnexpectedCharacter('*')),
            Some('|') => Err(ParseError::UnexpectedCharacter('|')),
            Some(')') => Err(ParseError::UnexpectedCharacter(')')),
            Some('(') => match ReAst::parse_inner(buf) {
                Ok(g) => ReAst::parse_next(g, buf),
                Err(e) => Err(e),
            },
            Some(c) => {
                proof {
                    lemma_entry_literal(old(buf).text(), old(buf).pos(), c);
                }
                ReAst::parse_next(ReAst::Ch(c), buf)
            },
            None => Ok(ReAst::Empty),
        }
    }

    /// Top level, extending the left operand `l`: reads the rest of the input.
    pub fn parse_next(l: ReAst, buf: &mut Cursor) -> (r: Result<ReAst, ParseError>)
        requires
            old(buf).wf(),
        ensures
            final(buf).wf(),
            final(buf).text() == old(buf).text(),
            old(buf).pos() <= final(buf).pos(),
            agrees(top_cont(old(buf).text(), old(buf).pos(), l), r, final(buf).pos()),
        decreases old(buf).text().len() - old(buf).pos(),
    {
        match buf.next() {
            Some(')') => Err(ParseError::UnexpectedCharacter(')')),
            Some('(') => match ReAst::parse_inner(buf) {
                Ok(g) => ReAst::parse_next(ReAst::seq(l, g), buf),
                Err(e) => Err(e),
            },
            Some('*') => match ReAst::add_star(l) {
                Ok(t) => ReAst::parse_next(t, buf),
                Err(e) => Err(e),
            },
            Some('|') => match ReAst::parse(buf) {
                Ok(rt) => Ok(ReAst::pipe(l, rt)),
                Err(e) => Err(e),
            },
            Some(c) => ReAst::parse_next(ReAst::seq(l, ReAst::Ch(c)), buf),
            None => Ok(l),
        }
    }

    /// Start of a group's expression: reads up to and including the closing
    /// parenthesis.
    pub fn parse_inner(buf: &mut Cursor) -> (r: Result<ReAst, ParseError>)
        requires
            old(buf).wf(),
        ensures
            final(buf).wf(),
            final(buf).text() == old(buf).text(),
            old(buf).pos() <= final(buf).pos(),
            r is Ok ==> old(buf).pos() < final(buf).pos(),
            agrees(group_entry(old(buf).text(), old(buf).pos()), r, final(buf).pos()),
        decreases old(buf).text().len() - old(buf).pos(),
    {
        match buf.next() {
            None => Err(ParseError::UnexpectedEndOfInput),
            Some('*') => Err(ParseError::UnexpectedCharacter('*')),
            Some('|') => Err(ParseError::UnexpectedCharacter('|')),
            Some(')') => Err(ParseError::EmptyGroup),
            Some('(') => match ReAst::parse_inner(buf) {
                Ok(g) => ReAst::parse_next_inner(g, buf),
                Err(e) => Err(e),
            },
            Some(c) => {
                proof {
                    lemma_entry_literal(old(buf).text(), old(buf).pos(), c);
                }
                ReAst::parse_next_inner(ReAst::Ch(c), buf)
            },
        }
    }

    /// Inside a group, extending the left operand `l`: reads up to and
    /// including the closing parenthesis.
    pub fn parse_next_inner(l: ReAst, buf: &mut Cursor) -> (r: Result<ReAst, ParseError>)
        requires
            old(buf).wf(),
        ensures
            final(buf).wf(),
            final(buf).text() == old(buf).text(),
            old(buf).pos() <= final(buf).pos(),
            r is Ok ==> old(buf).pos() < final(buf).pos(),
            agrees(group_cont(old(buf).text(), old(buf).pos(), l), r, final(buf).pos()),
        decreases old(buf).text().len() - old(buf).pos(),
    {
        match buf.next() {
            Some(')') => Ok(l),
            Some('(') => match ReAst::parse_inner(buf) {
                Ok(g) => ReAst::parse_next_inner(ReAst::seq(l, g), buf),
                Err(e) => Err(e),
            },
            Some('*') => match ReAst::add_star(l) {
                Ok(t) => ReAst::parse_next_inner(t, buf),
                Err(e) => Err(e),
            },
            Some('|') => match ReAst::parse_inner(buf) {
                Ok(rt) => Ok(ReAst::pipe(l, rt)),
                Err(e) => Err(e),
            },
            Some(c) => ReAst::parse_next_inner(ReAst::seq(l, ReAst::Ch(c)), buf),
            None => Err(ParseError::UnexpectedEndOfInput),
        }
    }
}

} // verus!
