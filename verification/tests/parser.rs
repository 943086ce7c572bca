use risp::parser::{parse, parse_at, parse_list_of_symbol_strings, tokenize};
use risp::risp_type::{Expected, RispErr, RispExp, SyntaxFault};
use std::rc::Rc;

fn num(x: f64) -> RispExp {
    RispExp::Number(x.to_bits())
}

fn sym(s: &str) -> RispExp {
    RispExp::Symbol(s.to_string())
}

fn toks(text: &str) -> Vec<String> {
    tokenize(text.to_string())
}

fn read(text: &str) -> Result<RispExp, RispErr> {
    let tokens = toks(text);
    parse(&tokens).map(|(exp, _)| exp)
}

#[test]
fn parentheses_are_tokens_of_their_own() {
    assert_eq!(toks("(+ 1 2)"), vec!["(", "+", "1", "2", ")"]);
    assert_eq!(toks("(a(b)c)"), vec!["(", "a", "(", "b", ")", "c", ")"]);
    assert_eq!(toks("()"), vec!["(", ")"]);
    assert_eq!(toks(")("), vec![")", "("]);
}

#[test]
fn white_space_separates_tokens() {
    assert_eq!(toks("  a \t b\nc\r\n d  "), vec!["a", "b", "c", "d"]);
    assert_eq!(toks("a\u{a0}b\u{2003}c\u{3000}d\u{85}e"), vec!["a", "b", "c", "d", "e"]);
    assert_eq!(toks(""), Vec::<String>::new());
    assert_eq!(toks("   \n "), Vec::<String>::new());
    assert_eq!(toks("abc"), vec!["abc"]);
    assert_eq!(toks("a\u{200b}b"), vec!["a\u{200b}b"]);
}

#[test]
fn tokens_are_what_replace_and_split_give() {
    let texts = [
        "(let x 5) (* x x)",
        "'(1 2 3)",
        "a'(b",
        "''(",
        "'a",
        "(print \"hello world\")",
        "((fn (x) (* x x)) 5)",
        " ( ( ) ) ",
        "x'",
        "'",
        "é(ü)\u{1680}ß",
    ];
    for text in texts {
        let expected: Vec<String> = text
            .replace("'(", " ( list ")
            .replace("(", " ( ")
            .replace(")", " ) ")
            .split_whitespace()
            .map(|x| x.to_string())
            .collect();
        assert_eq!(toks(text), expected, "{}", text);
    }
}

#[test]
fn a_quoted_list_is_a_call_of_list() {
    assert_eq!(toks("'(1 2)"), vec!["(", "list", "1", "2", ")"]);
    assert_eq!(
        read("'(1 2)"),
        Ok(RispExp::List(vec![sym("list"), num(1.0), num(2.0)]))
    );
}

#[test]
fn a_quoted_text_with_a_space_is_split() {
    assert_eq!(toks("\"a b\""), vec!["\"a", "b\""]);
}

#[test]
fn atoms_are_classified_in_order() {
    assert_eq!(read("true"), Ok(RispExp::Bool(true)));
    assert_eq!(read("false"), Ok(RispExp::Bool(false)));
    assert_eq!(read("nil"), Ok(RispExp::Nil));
    assert_eq!(read("12.5"), Ok(num(12.5)));
    assert_eq!(read("-3"), Ok(num(-3.0)));
    assert_eq!(read("1e3"), Ok(num(1000.0)));
    assert_eq!(read("inf"), Ok(num(f64::INFINITY)));
    assert_eq!(read("\"abc\""), Ok(RispExp::Literal("abc".to_string())));
    assert_eq!(read("\"\""), Ok(RispExp::Literal(String::new())));
    assert_eq!(read("\"é\""), Ok(RispExp::Literal("é".to_string())));
    assert_eq!(read("abc"), Ok(sym("abc")));
    assert_eq!(read("True"), Ok(sym("True")));
    assert_eq!(read("\""), Ok(sym("\"")));
    assert_eq!(read("\"abc"), Ok(sym("\"abc")));
    assert_eq!(read("+"), Ok(sym("+")));
    assert_eq!(read("1a"), Ok(sym("1a")));
    assert_eq!(read("\"1\""), Ok(RispExp::Literal("1".to_string())));
}

#[test]
fn lists_nest() {
    assert_eq!(read("()"), Ok(RispExp::List(vec![])));
    assert_eq!(
        read("(a (b 1) ())"),
        Ok(RispExp::List(vec![
            sym("a"),
            RispExp::List(vec![sym("b"), num(1.0)]),
            RispExp::List(vec![]),
        ]))
    );
}

#[test]
fn no_token_is_a_syntax_failure() {
    assert_eq!(read(""), Err(RispErr::Syntax(SyntaxFault::EmptyInput)));
    assert_eq!(read("   "), Err(RispErr::Syntax(SyntaxFault::EmptyInput)));
}

#[test]
fn a_stray_close_is_a_syntax_failure() {
    assert_eq!(read(")"), Err(RispErr::Syntax(SyntaxFault::UnexpectedClose)));
    assert_eq!(read(") a"), Err(RispErr::Syntax(SyntaxFault::UnexpectedClose)));
}

#[test]
fn an_open_list_is_a_syntax_failure() {
    assert_eq!(read("("), Err(RispErr::Syntax(SyntaxFault::MissingClose)));
    assert_eq!(read("(a b"), Err(RispErr::Syntax(SyntaxFault::MissingClose)));
    assert_eq!(read("(a (b)"), Err(RispErr::Syntax(SyntaxFault::MissingClose)));
    assert_eq!(read("((("), Err(RispErr::Syntax(SyntaxFault::MissingClose)));
}

#[test]
fn the_rest_of_the_tokens_is_handed_back() {
    let tokens = toks("(a) b (c)");
    let (first, rest) = parse(&tokens).unwrap();
    assert_eq!(first, RispExp::List(vec![sym("a")]));
    assert_eq!(rest.to_vec(), vec!["b", "(", "c", ")"]);
    let (second, rest) = parse(rest).unwrap();
    assert_eq!(second, sym("b"));
    let (third, rest) = parse(rest).unwrap();
    assert_eq!(third, RispExp::List(vec![sym("c")]));
    assert!(rest.is_empty());
    assert_eq!(parse(rest), Err(RispErr::Syntax(SyntaxFault::EmptyInput)));
}

#[test]
fn parsing_from_a_position() {
    let tokens = toks("(a) b (c)");
    assert_eq!(parse_at(&tokens, 0), Ok((RispExp::List(vec![sym("a")]), 3)));
    assert_eq!(parse_at(&tokens, 3), Ok((sym("b"), 4)));
    assert_eq!(parse_at(&tokens, 4), Ok((RispExp::List(vec![sym("c")]), 7)));
    assert_eq!(parse_at(&tokens, 7), Err(RispErr::Syntax(SyntaxFault::EmptyInput)));
    assert_eq!(parse_at(&tokens, 2), Err(RispErr::Syntax(SyntaxFault::UnexpectedClose)));
}

#[test]
fn parameter_lists_give_their_names() {
    assert_eq!(
        parse_list_of_symbol_strings(Rc::new(RispExp::List(vec![sym("x"), sym("y")]))),
        Ok(vec!["x".to_string(), "y".to_string()])
    );
    assert_eq!(
        parse_list_of_symbol_strings(Rc::new(RispExp::List(vec![]))),
        Ok(Vec::<String>::new())
    );
    assert_eq!(
        parse_list_of_symbol_strings(Rc::new(sym("x"))),
        Err(RispErr::TypeMismatch(Expected::ParameterList))
    );
    assert_eq!(
        parse_list_of_symbol_strings(Rc::new(RispExp::List(vec![sym("x"), num(1.0)]))),
        Err(RispErr::TypeMismatch(Expected::ParameterSymbol))
    );
}
