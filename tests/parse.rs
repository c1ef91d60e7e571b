use regex_ast::ast::{ParseError, ReAst};
use regex_ast::cursor::Cursor;

fn ch(c: char) -> ReAst {
    ReAst::Ch(c)
}

fn parses_to(re: &str, expected: ReAst) {
    assert_eq!(ReAst::new(re), Ok(expected), "input {:?}", re);
}

#[test]
fn empty_input() {
    parses_to("", ReAst::Empty);
}

#[test]
fn single_char() {
    parses_to("a", ch('a'));
}

#[test]
fn single_star() {
    parses_to("a*", ReAst::star(ch('a')));
}

#[test]
fn two_chars() {
    parses_to("ab", ReAst::seq(ch('a'), ch('b')));
}

#[test]
fn two_stars() {
    parses_to("a*b*", ReAst::seq(ReAst::star(ch('a')), ReAst::star(ch('b'))));
}

#[test]
fn star_then_char() {
    parses_to("a*a", ReAst::seq(ReAst::star(ch('a')), ch('a')));
}

#[test]
fn group_of_one() {
    parses_to("(a)", ch('a'));
}

#[test]
fn starred_group() {
    parses_to("(a)*", ReAst::star(ch('a')));
}

#[test]
fn group_then_char() {
    parses_to("(a)b", ReAst::seq(ch('a'), ch('b')));
}

#[test]
fn nested_groups() {
    parses_to("((a))", ch('a'));
    parses_to("(((a)))", ch('a'));
    parses_to("((((a))))", ch('a'));
}

#[test]
fn deep_group_then_char() {
    parses_to("((((a))))b", ReAst::seq(ch('a'), ch('b')));
}

#[test]
fn deep_starred_group_then_char() {
    parses_to("((((a*))))b", ReAst::seq(ReAst::star(ch('a')), ch('b')));
}

#[test]
fn char_then_group() {
    parses_to("a(b)", ReAst::seq(ch('a'), ch('b')));
}

#[test]
fn star_then_group() {
    parses_to("a*(b)", ReAst::seq(ReAst::star(ch('a')), ch('b')));
}

#[test]
fn group_in_middle() {
    parses_to("a(b)c", ReAst::seq(ReAst::seq(ch('a'), ch('b')), ch('c')));
}

#[test]
fn nested_group_on_right() {
    parses_to("a(b(c))", ReAst::seq(ch('a'), ReAst::seq(ch('b'), ch('c'))));
}

#[test]
fn alternation_with_group() {
    parses_to("a|(b(c))", ReAst::pipe(ch('a'), ReAst::seq(ch('b'), ch('c'))));
}

#[test]
fn alternation_is_right_associative() {
    parses_to("a|b|c", ReAst::pipe(ch('a'), ReAst::pipe(ch('b'), ch('c'))));
}

#[test]
fn alternation_has_lowest_precedence() {
    parses_to(
        "ab|c*",
        ReAst::pipe(ReAst::seq(ch('a'), ch('b')), ReAst::star(ch('c'))),
    );
}

#[test]
fn alternation_inside_group() {
    parses_to(
        "(a|b)c",
        ReAst::seq(ReAst::pipe(ch('a'), ch('b')), ch('c')),
    );
}

#[test]
fn star_binds_to_nearest_atom() {
    let r = ReAst::new("a*b*").unwrap();
    assert_ne!(r, ReAst::star(ReAst::seq(ch('a'), ch('b'))));
}

#[test]
fn star_after_group_reaches_its_last_atom() {
    parses_to("(ab)*", ReAst::seq(ch('a'), ReAst::star(ch('b'))));
    parses_to("(a|b)*", ReAst::pipe(ch('a'), ReAst::star(ch('b'))));
}

#[test]
fn double_star_is_kept() {
    parses_to("a**", ReAst::star(ReAst::star(ch('a'))));
}

#[test]
fn whitespace_is_literal() {
    parses_to(" a", ReAst::seq(ch(' '), ch('a')));
}

#[test]
fn trailing_alternative_may_be_empty() {
    parses_to("a|", ReAst::pipe(ch('a'), ReAst::Empty));
}

#[test]
fn parse_is_deterministic() {
    for re in ["a*b*", "a|(b(c))", "((((a*))))b"] {
        assert_eq!(ReAst::new(re), ReAst::new(re));
    }
}

#[test]
fn parentheses_are_transparent() {
    for re in ["a", "ab*", "a|b", "(a)b"] {
        let wrapped = format!("({})", re);
        assert_eq!(ReAst::new(&wrapped), ReAst::new(re));
        assert_eq!(ReAst::new(&format!("(({}))", re)), ReAst::new(re));
    }
}

#[test]
fn trailing_star_rewrites_last_atom() {
    for re in ["a", "ab", "a|b", "a(bc)", "a*"] {
        let tree = ReAst::new(re).unwrap();
        let starred = ReAst::new(&format!("{}*", re));
        assert_eq!(starred, ReAst::add_star(tree));
    }
}

#[test]
fn leading_star_is_rejected() {
    assert_eq!(ReAst::new("*"), Err(ParseError::UnexpectedCharacter('*')));
}

#[test]
fn leading_pipe_is_rejected() {
    assert_eq!(ReAst::new("|"), Err(ParseError::UnexpectedCharacter('|')));
}

#[test]
fn unmatched_close_is_rejected() {
    assert_eq!(ReAst::new(")"), Err(ParseError::UnexpectedCharacter(')')));
    assert_eq!(ReAst::new("a)"), Err(ParseError::UnexpectedCharacter(')')));
}

#[test]
fn unterminated_group_is_rejected() {
    assert_eq!(ReAst::new("("), Err(ParseError::UnexpectedEndOfInput));
    assert_eq!(ReAst::new("(a"), Err(ParseError::UnexpectedEndOfInput));
}

#[test]
fn empty_group_is_rejected() {
    assert_eq!(ReAst::new("()"), Err(ParseError::EmptyGroup));
    assert_eq!(ReAst::new("(a|)"), Err(ParseError::EmptyGroup));
}

#[test]
fn misplaced_operators_in_group_are_rejected() {
    assert_eq!(ReAst::new("(*a)"), Err(ParseError::UnexpectedCharacter('*')));
    assert_eq!(ReAst::new("(a||b)"), Err(ParseError::UnexpectedCharacter('|')));
    assert_eq!(ReAst::new("a||b"), Err(ParseError::UnexpectedCharacter('|')));
}

#[test]
fn add_star_on_empty_is_an_internal_error() {
    assert_eq!(ReAst::add_star(ReAst::Empty), Err(ParseError::InternalInvariantViolation));
    assert_eq!(
        ReAst::add_star(ReAst::pipe(ch('a'), ReAst::Empty)),
        Err(ParseError::InternalInvariantViolation)
    );
}

#[test]
fn add_star_descends_to_the_right() {
    let t = ReAst::seq(ch('a'), ReAst::pipe(ch('b'), ch('c')));
    assert_eq!(
        ReAst::add_star(t),
        Ok(ReAst::seq(ch('a'), ReAst::pipe(ch('b'), ReAst::star(ch('c')))))
    );
}

#[test]
fn states_read_from_a_shared_cursor() {
    let mut buf = Cursor::new("a)b");
    assert_eq!(ReAst::parse_next_inner(ch('x'), &mut buf), Ok(ReAst::seq(ch('x'), ch('a'))));
    assert_eq!(ReAst::parse(&mut buf), Ok(ch('b')));
    assert_eq!(buf.next(), None);
}

#[test]
fn group_entry_state_reads_through_closing_paren() {
    let mut buf = Cursor::new("a*)c");
    assert_eq!(ReAst::parse_inner(&mut buf), Ok(ReAst::star(ch('a'))));
    assert_eq!(buf.next(), Some('c'));
}

#[test]
fn top_continuation_state_extends_operand() {
    let mut buf = Cursor::new("b|c");
    assert_eq!(
        ReAst::parse_next(ch('a'), &mut buf),
        Ok(ReAst::pipe(ReAst::seq(ch('a'), ch('b')), ch('c')))
    );
}

#[test]
fn cursor_reads_unicode_characters() {
    let mut buf = Cursor::new("é*");
    assert_eq!(buf.next(), Some('é'));
    assert_eq!(buf.next(), Some('*'));
    assert_eq!(buf.next(), None);
    parses_to("é*", ReAst::star(ch('é')));
}
