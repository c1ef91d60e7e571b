//! Laws of the parser, proved over the state functions.
use vstd::prelude::*;
use crate::ast::{ReAst, ParseError, no_empty, star_rewrite};
use crate::parser::{top_entry, top_cont, group_entry, group_cont, parse_regex};

verus! {

/// A star rewrite of a tree without `Empty` succeeds and keeps it so.
pub proof fn lemma_star_rewrite_no_empty(t: ReAst)
    requires
        no_empty(t),
    ensures
        star_rewrite(t) is Some,
        no_empty(star_rewrite(t)->Some_0),
    decreases t,
{
    match t {
        ReAst::Concat(_, r) => lemma_star_rewrite_no_empty(*r),
        ReAst::Pipe(_, r) => lemma_star_rewrite_no_empty(*r),
        ReAst::Star(x) => lemma_star_rewrite_no_empty(*x),
        _ => {},
    }
}

/// The character at `i`, as a value of type `char`.
pub proof fn char_at(s: Seq<char>, i: int) -> (c: char)
    requires
        0 <= i < s.len(),
    ensures
        c == s[i],
{
    s[i]
}

/// A group state either fails with a syntax error, or gives a tree without
/// `Empty` and a position past the one it started at.
spec fn group_outcome_ok(o: Result<(ReAst, int), ParseError>, i: int, n: int) -> bool {
    match o {
        Ok((t, j)) => i < j <= n && no_empty(t),
        Err(e) => e != ParseError::InternalInvariantViolation,
    }
}

/// A top-level state never reports an internal invariant violation.
spec fn top_outcome_ok(o: Result<(ReAst, int), ParseError>) -> bool {
    o != Err::<(ReAst, int), ParseError>(ParseError::InternalInvariantViolation)
}

proof fn lemma_group_entry_ok(s: Seq<char>, i: int)
    requires
        0 <= i <= s.len(),
    ensures
        group_outcome_ok(group_entry(s, i), i, s.len() as int),
    decreases s.len() - i, 0int,
{
    if i < s.len() {
        let c = char_at(s, i);
        if c == '(' {
            lemma_group_entry_ok(s, i + 1);
            if let Ok((g, j)) = group_entry(s, i + 1) {
                lemma_group_cont_ok(s, j, g);
            }
        } else if c != ')' && c != '*' && c != '|' {
            lemma_group_cont_ok(s, i + 1, ReAst::Ch(c));
        }
    }
}

proof fn lemma_group_cont_ok(s: Seq<char>, i: int, l: ReAst)
    requires
        0 <= i <= s.len(),
        no_empty(l),
    ensures
        group_outcome_ok(group_cont(s, i, l), i, s.len() as int),
    decreases s.len() - i, 1int,
{
    if i < s.len() {
        let c = char_at(s, i);
        if c == '(' {
            lemma_group_entry_ok(s, i + 1);
            if let Ok((g, j)) = group_entry(s, i + 1) {
                lemma_group_cont_ok(s, j, ReAst::Concat(Box::new(l), Box::new(g)));
            }
        } else if c == '*' {
            lemma_star_rewrite_no_empty(l);
            lemma_group_cont_ok(s, i + 1, star_rewrite(l)->Some_0);
        } else if c == '|' {
            lemma_group_entry_ok(s, i + 1);
        } else if c != ')' {
            assert(no_empty(ReAst::Ch(c)));
            lemma_group_cont_ok(s, i + 1, ReAst::Concat(Box::new(l), Box::new(ReAst::Ch(c))));
        }
    }
}

proof fn lemma_top_entry_ok(s: Seq<char>, i: int)
    requires
        0 <= i <= s.len(),
    ensures
        top_outcome_ok(top_entry(s, i)),
    decreases s.len() - i, 0int,
{
    if i < s.len() {
        let c = char_at(s, i);
        if c == '(' {
            lemma_group_entry_ok(s, i + 1);
            if let Ok((g, j)) = group_entry(s, i + 1) {
                lemma_top_cont_ok(s, j, g);
            }
        } else if c != ')' && c != '*' && c != '|' {
            lemma_top_cont_ok(s, i + 1, ReAst::Ch(c));
        }
    }
}

proof fn lemma_top_cont_ok(s: Seq<char>, i: int, l: ReAst)
    requires
        0 <= i <= s.len(),
        no_empty(l),
    ensures
        top_outcome_ok(top_cont(s, i, l)),
    decreases s.len() - i, 1int,
{
    if i < s.len() {
        let c = char_at(s, i);
        if c == '(' {
            lemma_group_entry_ok(s, i + 1);
            if let Ok((g, j)) = group_entry(s, i + 1) {
                lemma_top_cont_ok(s, j, ReAst::Concat(Box::new(l), Box::new(g)));
            }
        } else if c == '*' {
            lemma_star_rewrite_no_empty(l);
            lemma_top_cont_ok(s, i + 1, star_rewrite(l)->Some_0);
        } else if c == '|' {
            lemma_top_entry_ok(s, i + 1);
        } else if c != ')' {
            assert(no_empty(ReAst::Ch(c)));
            lemma_top_cont_ok(s, i + 1, ReAst::Concat(Box::new(l), Box::new(ReAst::Ch(c))));
        }
    }
}

/// Parsing never reports an internal invariant violation: every failure is
/// a syntax error caused by the input.
pub proof fn lemma_parse_no_internal_error(s: Seq<char>)
    ensures
        parse_regex(s) != Err::<ReAst, ParseError>(ParseError::InternalInvariantViolation),
{
    lemma_top_entry_ok(s, 0);
}

/// `t` holds `s` at offset `k`.
spec fn embeds(t: Seq<char>, s: Seq<char>, k: int) -> bool {
    &&& 0 <= k
    &&& k + s.len() <= t.len()
    &&& forall|m: int| 0 <= m < s.len() ==> t[k + m] == #[trigger] s[m]
}

/// The outcome `o` with its end position moved by `k`.
spec fn shifted(o: Result<(ReAst, int), ParseError>, k: int) -> Result<(ReAst, int), ParseError> {
    match o {
        Ok((g, j)) => Ok((g, j + k)),
        Err(e) => Err(e),
    }
}

/// A group that closes within `s` reads the same characters wherever `s`
/// stands in a longer text.
proof fn lemma_group_entry_embed(s: Seq<char>, t: Seq<char>, k: int, i: int)
    requires
        embeds(t, s, k),
        0 <= i <= s.len(),
        group_entry(s, i) is Ok,
    ensures
        group_entry(t, k + i) == shifted(group_entry(s, i), k),
    decreases s.len() - i,
{
    let c = char_at(s, i);
    assert(t[k + i] == s[i]);
    if c == '(' {
        lemma_group_entry_embed(s, t, k, i + 1);
        let (g, j) = group_entry(s, i + 1)->Ok_0;
        lemma_group_cont_embed(s, t, k, j, g);
    } else if c != ')' && c != '*' && c != '|' {
        lemma_group_cont_embed(s, t, k, i + 1, ReAst::Ch(c));
    }
}

proof fn lemma_group_cont_embed(s: Seq<char>, t: Seq<char>, k: int, i: int, l: ReAst)
    requires
        embeds(t, s, k),
        0 <= i <= s.len(),
        group_cont(s, i, l) is Ok,
    ensures
        group_cont(t, k + i, l) == shifted(group_cont(s, i, l), k),
    decreases s.len() - i,
{
    let c = char_at(s, i);
    assert(t[k + i] == s[i]);
    if c == '(' {
        lemma_group_entry_embed(s, t, k, i + 1);
        let (g, j) = group_entry(s, i + 1)->Ok_0;
        lemma_group_cont_embed(s, t, k, j, ReAst::Concat(Box::new(l), Box::new(g)));
    } else if c == '*' {
        lemma_group_cont_embed(s, t, k, i + 1, star_rewrite(l)->Some_0);
    } else if c == '|' {
        lemma_group_entry_embed(s, t, k, i + 1);
    } else if c != ')' {
        lemma_group_cont_embed(s, t, k, i + 1, ReAst::Concat(Box::new(l), Box::new(ReAst::Ch(c))));
    }
}

/// A top-level expression whose tree holds no `Empty`, followed by `)`,
/// reads as the same tree in a group state.
proof fn lemma_top_entry_as_group(s: Seq<char>, t: Seq<char>, k: int, i: int)
    requires
        embeds(t, s, k),
        k + s.len() < t.len(),
        t[k + s.len()] == ')',
        0 <= i <= s.len(),
        top_entry(s, i) is Ok,
        no_empty(top_entry(s, i)->Ok_0.0),
    ensures
        group_entry(t, k + i) == Ok::<(ReAst, int), ParseError>(
            (top_entry(s, i)->Ok_0.0, k + s.len() + 1),
        ),
    decreases s.len() - i,
{
    let c = char_at(s, i);
    assert(t[k + i] == s[i]);
    if c == '(' {
        lemma_group_entry_embed(s, t, k, i + 1);
        let (g, j) = group_entry(s, i + 1)->Ok_0;
        lemma_top_cont_as_group(s, t, k, j, g);
    } else {
        lemma_top_cont_as_group(s, t, k, i + 1, ReAst::Ch(c));
    }
}

proof fn lemma_top_cont_as_group(s: Seq<char>, t: Seq<char>, k: int, i: int, l: ReAst)
    requires
        embeds(t, s, k),
        k + s.len() < t.len(),
        t[k + s.len()] == ')',
        0 <= i <= s.len(),
        top_cont(s, i, l) is Ok,
        no_empty(top_cont(s, i, l)->Ok_0.0),
    ensures
        group_cont(t, k + i, l) == Ok::<(ReAst, int), ParseError>(
            (top_cont(s, i, l)->Ok_0.0, k + s.len() + 1),
        ),
    decreases s.len() - i,
{
    if i < s.len() {
        let c = char_at(s, i);
        assert(t[k + i] == s[i]);
        if c == '(' {
            lemma_group_entry_embed(s, t, k, i + 1);
            let (g, j) = group_entry(s, i + 1)->Ok_0;
            lemma_top_cont_as_group(s, t, k, j, ReAst::Concat(Box::new(l), Box::new(g)));
        } else if c == '*' {
            lemma_top_cont_as_group(s, t, k, i + 1, star_rewrite(l)->Some_0);
        } else if c == '|' {
            lemma_top_entry_as_group(s, t, k, i + 1);
        } else {
            lemma_top_cont_as_group(s, t, k, i + 1, ReAst::Concat(Box::new(l), Box::new(ReAst::Ch(c))));
        }
    }
}

/// Parentheses around an expression leave its tree unchanged, whenever that
/// tree holds no `Empty` node (an empty expression, or one that ends in an
/// empty alternative, cannot stand in a group).
pub proof fn lemma_group_transparent(s: Seq<char>)
    requires
        parse_regex(s) is Ok,
        no_empty(parse_regex(s)->Ok_0),
    ensures
        parse_regex(seq!['('] + s + seq![')']) == parse_regex(s),
{
    let u = seq!['('] + s + seq![')'];
    assert(embeds(u, s, 1));
    assert(u[0] == '(');
    assert(u[s.len() as int + 1] == ')');
    lemma_top_entry_as_group(s, u, 1, 0);
}

/// A top-level expression whose tree holds no `Empty`, followed by `*`,
/// reads as the star rewrite of that tree.
proof fn lemma_top_entry_starred(s: Seq<char>, t: Seq<char>, i: int)
    requires
        t == s.push('*'),
        0 <= i <= s.len(),
        top_entry(s, i) is Ok,
        no_empty(top_entry(s, i)->Ok_0.0),
    ensures
        star_rewrite(top_entry(s, i)->Ok_0.0) is Some,
        top_entry(t, i) == Ok::<(ReAst, int), ParseError>(
            (star_rewrite(top_entry(s, i)->Ok_0.0)->Some_0, t.len() as int),
        ),
    decreases s.len() - i,
{
    assert(embeds(t, s, 0));
    let c = char_at(s, i);
    assert(t[i] == s[i]);
    if c == '(' {
        lemma_group_entry_embed(s, t, 0, i + 1);
        let (g, j) = group_entry(s, i + 1)->Ok_0;
        lemma_top_cont_starred(s, t, j, g);
    } else {
        lemma_top_cont_starred(s, t, i + 1, ReAst::Ch(c));
    }
}

proof fn lemma_top_cont_starred(s: Seq<char>, t: Seq<char>, i: int, l: ReAst)
    requires
        t == s.push('*'),
        0 <= i <= s.len(),
        top_cont(s, i, l) is Ok,
        no_empty(top_cont(s, i, l)->Ok_0.0),
    ensures
        star_rewrite(top_cont(s, i, l)->Ok_0.0) is Some,
        top_cont(t, i, l) == Ok::<(ReAst, int), ParseError>(
            (star_rewrite(top_cont(s, i, l)->Ok_0.0)->Some_0, t.len() as int),
        ),
    decreases s.len() - i,
{
    assert(embeds(t, s, 0));
    if i < s.len() {
        let c = char_at(s, i);
        assert(t[i] == s[i]);
        if c == '(' {
            lemma_group_entry_embed(s, t, 0, i + 1);
            let (g, j) = group_entry(s, i + 1)->Ok_0;
            lemma_top_cont_starred(s, t, j, ReAst::Concat(Box::new(l), Box::new(g)));
        } else if c == '*' {
            lemma_top_cont_starred(s, t, i + 1, star_rewrite(l)->Some_0);
        } else if c == '|' {
            lemma_top_entry_starred(s, t, i + 1);
            let r = top_entry(s, i + 1)->Ok_0.0;
            lemma_star_rewrite_no_empty(r);
        } else {
            lemma_top_cont_starred(s, t, i + 1, ReAst::Concat(Box::new(l), Box::new(ReAst::Ch(c))));
        }
    } else {
        assert(t[i] == '*');
        lemma_star_rewrite_no_empty(l);
        let l2 = star_rewrite(l)->Some_0;
        assert(top_cont(t, i + 1, l2) == Ok::<(ReAst, int), ParseError>((l2, i + 1)));
    }
}

/// A `*` written after a whole expression applies to its last atom: the
/// tree is the star rewrite of the expression's tree, whenever that tree
/// holds no `Empty` node.
pub proof fn lemma_trailing_star(s: Seq<char>)
    requires
        parse_regex(s) is Ok,
        no_empty(parse_regex(s)->Ok_0),
    ensures
        star_rewrite(parse_regex(s)->Ok_0) is Some,
        parse_regex(s.push('*')) == Ok::<ReAst, ParseError>(
            star_rewrite(parse_regex(s)->Ok_0)->Some_0,
        ),
{
    lemma_top_entry_starred(s, s.push('*'), 0);
}

/// A state that starts within the last part `s` of a text `t` gives the
/// same outcome as on `s` alone, moved by where `s` starts.
proof fn lemma_group_entry_suffix(s: Seq<char>, t: Seq<char>, k: int, i: int)
    requires
        embeds(t, s, k),
        k + s.len() == t.len(),
        0 <= i <= s.len(),
    ensures
        group_entry(t, k + i) == shifted(group_entry(s, i), k),
    decreases s.len() - i,
{
    if i < s.len() {
        let c = char_at(s, i);
        assert(t[k + i] == s[i]);
        if c == '(' {
            lemma_group_entry_suffix(s, t, k, i + 1);
            if let Ok((g, j)) = group_entry(s, i + 1) {
                if i < j <= s.len() {
                    lemma_group_cont_suffix(s, t, k, j, g);
                }
            }
        } else if c != ')' && c != '*' && c != '|' {
            lemma_group_cont_suffix(s, t, k, i + 1, ReAst::Ch(c));
        }
    }
}

proof fn lemma_group_cont_suffix(s: Seq<char>, t: Seq<char>, k: int, i: int, l: ReAst)
    requires
        embeds(t, s, k),
        k + s.len() == t.len(),
        0 <= i <= s.len(),
    ensures
        group_cont(t, k + i, l) == shifted(group_cont(s, i, l), k),
    decreases s.len() - i,
{
    if i < s.len() {
        let c = char_at(s, i);
        assert(t[k + i] == s[i]);
        if c == '(' {
            lemma_group_entry_suffix(s, t, k, i + 1);
            if let Ok((g, j)) = group_entry(s, i + 1) {
                if i < j <= s.len() {
                    lemma_group_cont_suffix(s, t, k, j, ReAst::Concat(Box::new(l), Box::new(g)));
                }
            }
        } else if c == '*' {
            if let Some(l2) = star_rewrite(l) {
                lemma_group_cont_suffix(s, t, k, i + 1, l2);
            }
        } else if c == '|' {
            lemma_group_entry_suffix(s, t, k, i + 1);
        } else if c != ')' {
            lemma_group_cont_suffix(s, t, k, i + 1, ReAst::Concat(Box::new(l), Box::new(ReAst::Ch(c))));
        }
    }
}

proof fn lemma_top_entry_suffix(s: Seq<char>, t: Seq<char>, k: int, i: int)
    requires
        embeds(t, s, k),
        k + s.len() == t.len(),
        0 <= i <= s.len(),
    ensures
        top_entry(t, k + i) == shifted(top_entry(s, i), k),
    decreases s.len() - i,
{
    if i < s.len() {
        let c = char_at(s, i);
        assert(t[k + i] == s[i]);
        if c == '(' {
            lemma_group_entry_suffix(s, t, k, i + 1);
            if let Ok((g, j)) = group_entry(s, i + 1) {
                if i < j <= s.len() {
                    lemma_top_cont_suffix(s, t, k, j, g);
                }
            }
        } else if c != ')' && c != '*' && c != '|' {
            lemma_top_cont_suffix(s, t, k, i + 1, ReAst::Ch(c));
        }
    }
}

proof fn lemma_top_cont_suffix(s: Seq<char>, t: Seq<char>, k: int, i: int, l: ReAst)
    requires
        embeds(t, s, k),
        k + s.len() == t.len(),
        0 <= i <= s.len(),
    ensures
        top_cont(t, k + i, l) == shifted(top_cont(s, i, l), k),
    decreases s.len() - i,
{
    if i < s.len() {
        let c = char_at(s, i);
        assert(t[k + i] == s[i]);
        if c == '(' {
            lemma_group_entry_suffix(s, t, k, i + 1);
            if let Ok((g, j)) = group_entry(s, i + 1) {
                if i < j <= s.len() {
                    lemma_top_cont_suffix(s, t, k, j, ReAst::Concat(Box::new(l), Box::new(g)));
                }
            }
        } else if c == '*' {
            if let Some(l2) = star_rewrite(l) {
                lemma_top_cont_suffix(s, t, k, i + 1, l2);
            }
        } else if c == '|' {
            lemma_top_entry_suffix(s, t, k, i + 1);
        } else if c != ')' {
            lemma_top_cont_suffix(s, t, k, i + 1, ReAst::Concat(Box::new(l), Box::new(ReAst::Ch(c))));
        }
    }
}

/// The tree `u` as the left branch of an alternation whose right branch is
/// the outcome `o`.
spec fn piped(u: ReAst, o: Result<(ReAst, int), ParseError>) -> Result<(ReAst, int), ParseError> {
    match o {
        Ok((r, j)) => Ok((ReAst::Pipe(Box::new(u), Box::new(r)), j)),
        Err(e) => Err(e),
    }
}

/// `t` is `s` followed by `|` and more, and `s` holds no `|`.
spec fn pipe_after(t: Seq<char>, s: Seq<char>) -> bool {
    &&& embeds(t, s, 0)
    &&& s.len() < t.len()
    &&& t[s.len() as int] == '|'
    &&& forall|m: int| 0 <= m < s.len() ==> #[trigger] s[m] != '|'
}

/// A top-level expression without `|`, followed by `|`, becomes the left
/// branch of an alternation whose right branch is the rest of the text.
proof fn lemma_top_entry_before_pipe(s: Seq<char>, t: Seq<char>, i: int)
    requires
        pipe_after(t, s),
        0 <= i < s.len(),
        top_entry(s, i) is Ok,
    ensures
        top_entry(t, i) == piped(top_entry(s, i)->Ok_0.0, top_entry(t, s.len() as int + 1)),
    decreases s.len() - i,
{
    let c = char_at(s, i);
    assert(t[i] == s[i]);
    if c == '(' {
        lemma_group_entry_embed(s, t, 0, i + 1);
        let (g, j) = group_entry(s, i + 1)->Ok_0;
        lemma_top_cont_before_pipe(s, t, j, g);
    } else {
        lemma_top_cont_before_pipe(s, t, i + 1, ReAst::Ch(c));
    }
}

proof fn lemma_top_cont_before_pipe(s: Seq<char>, t: Seq<char>, i: int, l: ReAst)
    requires
        pipe_after(t, s),
        0 <= i <= s.len(),
        top_cont(s, i, l) is Ok,
    ensures
        top_cont(t, i, l) == piped(top_cont(s, i, l)->Ok_0.0, top_entry(t, s.len() as int + 1)),
    decreases s.len() - i,
{
    if i < s.len() {
        let c = char_at(s, i);
        assert(t[i] == s[i]);
        if c == '(' {
            lemma_group_entry_embed(s, t, 0, i + 1);
            let (g, j) = group_entry(s, i + 1)->Ok_0;
            lemma_top_cont_before_pipe(s, t, j, ReAst::Concat(Box::new(l), Box::new(g)));
        } else if c == '*' {
            lemma_top_cont_before_pipe(s, t, i + 1, star_rewrite(l)->Some_0);
        } else {
            lemma_top_cont_before_pipe(s, t, i + 1, ReAst::Concat(Box::new(l), Box::new(ReAst::Ch(c))));
        }
    }
}

/// Alternation has the lowest precedence and groups to the right: a
/// non-empty expression `a` without `|`, then `|`, then any `b`, gives the
/// alternation of the two trees, or the error that `b` gives.
pub proof fn lemma_alternation(a: Seq<char>, b: Seq<char>)
    requires
        a.len() > 0,
        forall|m: int| 0 <= m < a.len() ==> #[trigger] a[m] != '|',
        parse_regex(a) is Ok,
    ensures
        parse_regex(a + seq!['|'] + b) == match parse_regex(b) {
            Ok(r) => Ok::<ReAst, ParseError>(
                ReAst::Pipe(Box::new(parse_regex(a)->Ok_0), Box::new(r)),
            ),
            Err(e) => Err(e),
        },
{
    let t = a + seq!['|'] + b;
    assert(pipe_after(t, a));
    lemma_top_entry_before_pipe(a, t, 0);
    assert(embeds(t, b, a.len() as int + 1));
    lemma_top_entry_suffix(b, t, a.len() as int + 1, 0);
}

} // verus!
