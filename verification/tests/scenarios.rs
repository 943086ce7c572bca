use risp::eval::eval;
use risp::parser::{parse, tokenize};
use risp::primitives::standard_env;
use risp::repl::parse_eval;
use risp::host::{Host, Session};
use risp::risp_type::{RispEnv, RispErr, RispExp};

const DEPTH: usize = 200;

struct Silent;

impl Host for Silent {
    fn read_text(&mut self, path: &str) -> Result<String, String> {
        Err(format!("no file {}", path))
    }

    fn write_line(&mut self, _line: &str) {}
}

fn num(x: f64) -> RispExp {
    RispExp::Number(x.to_bits())
}

fn run(text: &str, env: &mut RispEnv) -> Result<RispExp, RispErr> {
    parse_eval(text.to_string(), env, &mut Session::new(Silent), DEPTH)
}

#[test]
fn sum_of_three() {
    let mut env = standard_env();
    assert_eq!(run("(+ 1 2 3)", &mut env), Ok(num(6.0)));
}

#[test]
fn let_then_use_in_one_text() {
    let mut env = standard_env();
    assert_eq!(run("(let x 5) (* x x)", &mut env), Ok(num(25.0)));
}

#[test]
fn let_then_use_in_two_texts() {
    let mut env = standard_env();
    assert_eq!(run("(let x 5)", &mut env), Ok(RispExp::Symbol("x".to_string())));
    assert_eq!(run("(* x x)", &mut env), Ok(num(25.0)));
}

#[test]
fn closure_squares() {
    let mut env = standard_env();
    assert_eq!(run("((fn (x) (* x x)) 5)", &mut env), Ok(num(25.0)));
    assert_eq!(run("(let sq (fn (x) (* x x))) (sq 5)", &mut env), Ok(num(25.0)));
}

#[test]
fn if_picks_a_branch() {
    let mut env = standard_env();
    assert_eq!(run("(if (> 3 2) 1 2)", &mut env), Ok(num(1.0)));
    assert_eq!(run("(if (> 2 3) 1 2)", &mut env), Ok(num(2.0)));
}

#[test]
fn car_and_cdr() {
    let mut env = standard_env();
    assert_eq!(run("(car (list 1 2 3))", &mut env), Ok(num(1.0)));
    assert_eq!(
        run("(cdr (list 1 2 3))", &mut env),
        Ok(RispExp::List(vec![num(2.0), num(3.0)]))
    );
    assert_eq!(run("(cdr (list 1))", &mut env), Ok(RispExp::Nil));
}

#[test]
fn nth_past_the_end() {
    let mut env = standard_env();
    assert_eq!(run("(nth 5 (list 1 2 3))", &mut env), Ok(RispExp::Nil));
    assert_eq!(run("(nth 1 (list 1 2 3))", &mut env), Ok(num(2.0)));
}

#[test]
fn parse_hands_back_the_rest() {
    let tokens = tokenize("(+ 1 2) x".to_string());
    let (exp, rest) = parse(&tokens).unwrap();
    assert_eq!(
        exp,
        RispExp::List(vec![RispExp::Symbol("+".to_string()), num(1.0), num(2.0)])
    );
    assert_eq!(rest.to_vec(), vec!["x".to_string()]);
    let mut env = standard_env();
    assert_eq!(eval(&exp, &mut env, &mut Session::new(Silent), DEPTH), Ok(num(3.0)));
}
