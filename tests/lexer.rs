use ftl::error::{Handler, LangError};
use ftl::lexer::{Lexer, LexingErrorKind};
use ftl::string::String as Source;
use ftl::token::{Kind, Token, Value};

fn make_lexer(content: &str) -> Lexer {
    Lexer::new(Source::from_str(content))
}

fn is_int(tok: &Option<Token>, v: u64) -> bool {
    match tok {
        Some(Token { kind: Kind::IntLiteral, value: Value::Integer(x), .. }) => *x == v,
        _ => false,
    }
}

fn text_of(tok: &Token) -> String {
    match &tok.value {
        Value::String(s) => s.clone(),
        _ => String::new(),
    }
}

/// Diagnostics of the lexer, rendered against its source.
fn error_msg(l: &Lexer) -> Option<String> {
    let mut h = Handler::new();
    for e in l.errors() {
        h.err(LangError::Lexing(*e));
    }
    h.error_msg(l.source())
}

#[test]
fn lib_lexer_creation_from_empty_string_source() {
    make_lexer("");
}

#[test]
fn lib_reading_first_token_from_empty_lexer() {
    let l = make_lexer("");
    assert!(l.curr().is_none());
}

#[test]
fn lib_reading_past_first_token_from_empty_lexer() {
    let mut l = make_lexer("");
    assert!(l.next().is_none());
}

#[test]
fn lib_reading_first_token_from_just_integer_in_source() {
    let l = make_lexer("123");
    assert!(is_int(&l.curr(), 123));
}

#[test]
fn lib_skipping_comments_and_whitespaces() {
    let l = make_lexer("\n            # comment tdg d dg \n            123\n        ");
    assert!(is_int(&l.curr(), 123));
}

#[test]
fn lib_get_zero_integer_literal() {
    let l = make_lexer("0");
    assert!(is_int(&l.curr(), 0));
}

#[test]
fn error_on_integer_starting_from_zero() {
    let l = make_lexer("01");
    assert!(error_msg(&l).is_some());
}

#[test]
fn error_on_alpha_in_zero_literal() {
    let l = make_lexer("0a");
    assert!(error_msg(&l).is_some());
}

#[test]
fn error_on_alpha_in_nonzero_literal() {
    let l = make_lexer("657457a");
    assert!(error_msg(&l).is_some());
}

#[test]
fn lib_read_multiple_integers() {
    let mut l = make_lexer("0\n        1 2 3\n        5\n        6\n        ");
    l.next();
    l.next();
    l.next();
    l.next();
    assert!(is_int(&l.curr(), 5));
}

#[test]
fn lib_read_identifiers() {
    let mut l = make_lexer("0\n        some identifiers\n        ");
    l.next();
    let tok = l.next().unwrap();
    assert_eq!(tok.kind, Kind::Identifier);
    assert_eq!(text_of(&tok), "identifiers");
}

#[test]
fn lib_read_keywords() {
    let mut l = make_lexer("0\n        som134e def\n        ");
    l.next();
    let tok = l.next().unwrap();
    assert_eq!(tok.kind, Kind::FuncDef);
    assert_eq!(text_of(&tok), "def");
}

#[test]
fn lib_read_identifiers_alongside_integers() {
    let mut l = make_lexer("0\n        s_242_ome 123\n        ");
    l.next();
    l.next();
    assert!(is_int(&l.curr(), 123));
}

#[test]
fn lib_read_multiple_operators() {
    let mut l = make_lexer("0\n        + - ++ -- , ( )\n        ");
    assert_eq!(l.next().unwrap().kind, Kind::Operator);
    assert_eq!(l.next().unwrap().kind, Kind::Operator);
    assert_eq!(l.next().unwrap().kind, Kind::Operator);
    assert_eq!(l.next().unwrap().kind, Kind::Operator);
    assert_eq!(l.next().unwrap().kind, Kind::Comma);
    assert_eq!(l.next().unwrap().kind, Kind::LeftParenthesis);
    assert_eq!(l.next().unwrap().kind, Kind::RightParenthesis);
}

#[test]
fn lib_read_multiple_operators_with_integers_before_and_after() {
    let mut l = make_lexer("0\n        12+0 - ++ -- , ()\n        ");
    assert!(is_int(&l.next(), 12));
    assert_eq!(l.next().unwrap().kind, Kind::Operator);
    assert!(is_int(&l.next(), 0));
}

#[test]
fn lib_read_multiple_operators_with_identifiers_before_and_after() {
    let mut l = make_lexer("0\n        _Adfaf_+_12_ - ++ -- , ()\n        ");
    assert_eq!(l.next().unwrap().kind, Kind::Identifier);
    assert_eq!(l.next().unwrap().kind, Kind::Operator);
    assert_eq!(l.next().unwrap().kind, Kind::Identifier);
}

#[test]
fn lib_read_multiple_operators_each_being_part_of_itself() {
    let mut l = make_lexer("0\n        ++--+++++\n        ");
    let tok = l.next().unwrap();
    assert_eq!(tok.kind, Kind::Operator);
    assert_eq!(text_of(&tok), "++--+++++");
}

#[test]
fn returning_poisoned_integers() {
    let mut l = make_lexer("0a 123");
    let tok = l.curr().unwrap();
    assert_eq!(tok.kind, Kind::Poisoned);
    assert_eq!(text_of(&tok), "0a");
    assert!(is_int(&l.next(), 123));
}

#[test]
fn returning_poisoned_integers_2() {
    let mut l = make_lexer("123 12asdafe3");
    let tok = l.next().unwrap();
    assert_eq!(tok.kind, Kind::Poisoned);
    assert_eq!(text_of(&tok), "12asdafe3");
}

#[test]
fn returning_unknown_character() {
    let mut l = make_lexer("123 😁0");
    let tok = l.next().unwrap();
    assert_eq!(tok.kind, Kind::Poisoned);
    assert_eq!(text_of(&tok), "😁");
}

#[test]
fn returning_infix_ident() {
    let mut l = make_lexer("123 `abc 123");
    assert!(is_int(&l.curr(), 123));
    let tok = l.next().unwrap();
    assert_eq!(tok.kind, Kind::InfixIdent);
    assert_eq!(text_of(&tok), "abc");
    assert!(is_int(&l.next(), 123));
}

#[test]
fn integer_literal_covers_whole_run() {
    for (text, value) in [("0", 0u64), ("7", 7), ("42", 42), ("18446744073709551615", u64::MAX)] {
        let src = format!("  {} ", text);
        let mut l = make_lexer(&src);
        let tok = l.curr().unwrap();
        assert_eq!(tok.kind, Kind::IntLiteral);
        assert!(matches!(tok.value, Value::Integer(v) if v == value));
        assert_eq!(tok.span.beg.index, 2);
        assert_eq!(tok.span.end.index, 2 + text.len());
        assert_eq!(l.source().source_with_span(&tok.span), text);
        assert!(l.errors().is_empty());
        assert!(l.next().is_none());
    }
}

#[test]
fn integer_literal_followed_by_operator() {
    let l = make_lexer("10+");
    let tok = l.curr().unwrap();
    assert!(matches!(tok.value, Value::Integer(10)));
    assert_eq!(tok.span.end.index, 2);
}

#[test]
fn zero_followed_by_digit_is_poisoned() {
    let l = make_lexer("012 x");
    let tok = l.curr().unwrap();
    assert_eq!(tok.kind, Kind::Poisoned);
    assert_eq!(text_of(&tok), "012");
    assert_eq!(tok.span.end.index, 3);
    assert_eq!(l.errors().len(), 1);
    assert_eq!(l.errors()[0].kind, LexingErrorKind::IntegersCannotStartWithZero);
    assert_eq!(l.errors()[0].end.index, 3);
}

#[test]
fn digits_followed_by_letter_are_poisoned() {
    let l = make_lexer("657457a+1");
    let tok = l.curr().unwrap();
    assert_eq!(tok.kind, Kind::Poisoned);
    assert_eq!(text_of(&tok), "657457a");
    assert_eq!(l.errors()[0].kind, LexingErrorKind::NotAnInteger);
}

#[test]
fn integer_too_large_is_not_an_integer() {
    let l = make_lexer("18446744073709551616");
    let tok = l.curr().unwrap();
    assert_eq!(tok.kind, Kind::Poisoned);
    assert_eq!(l.errors()[0].kind, LexingErrorKind::NotAnInteger);
}

#[test]
fn unknown_character_is_recorded() {
    let mut l = make_lexer("a ? b");
    assert_eq!(l.next().unwrap().kind, Kind::Operator);
    let mut l2 = make_lexer("a \u{00A7} b");
    let tok = l2.next().unwrap();
    assert_eq!(tok.kind, Kind::Poisoned);
    assert_eq!(l2.errors()[0].kind, LexingErrorKind::UnknownCharacter('\u{00A7}'));
    assert_eq!(l2.next().unwrap().kind, Kind::Identifier);
    assert!(l.errors().is_empty());
}

#[test]
fn punctuation_and_keywords() {
    let mut l = make_lexer("decl infix [ ] : @ @@ :: ,");
    let kinds = [Kind::FuncDecl, Kind::InfixDef, Kind::LeftBracket, Kind::RightBracket, Kind::Colon, Kind::At, Kind::Operator, Kind::Operator, Kind::Comma];
    assert_eq!(l.curr().unwrap().kind, kinds[0]);
    for k in &kinds[1..] {
        assert_eq!(l.next().unwrap().kind, *k);
    }
    assert!(l.next().is_none());
}

#[test]
fn lone_backtick_is_poisoned() {
    let l = make_lexer("` 1");
    assert_eq!(l.curr().unwrap().kind, Kind::Poisoned);
    assert_eq!(l.errors()[0].kind, LexingErrorKind::UnknownCharacter('`'));
}

#[test]
fn diagnostics_are_rendered_with_position_and_text() {
    let mut l = make_lexer("x\n  01");
    l.next();
    assert_eq!(error_msg(&l).unwrap(), "[2:3] integers cannot start with 0\n\n01\n\n");
    let clean = make_lexer("x");
    assert!(error_msg(&clean).is_none());
}
