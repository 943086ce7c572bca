//! Evaluation: the functions that compute what a program means.

use crate::extension::{
    lemma_eval_extends, lemma_frame_extends, lemma_list_extends, lemma_list_sticks,
    lemma_prefix_index,
};
use crate::host::{lemma_prefix_of_prefix, lemma_prefix_of_push, Event, Host, Session};
use crate::parser::{parse_list_of_symbol_strings, texts, tokens_of};
use crate::primitives::apply_primitive;
use crate::repl::parse_eval;
use crate::risp_type::{
    clone_all, pairs_view, render, result_view, sexps, share, slice_sexps, Expected, Failure,
    RispEnv, RispErr, RispExp, RispLambda, RispResult, Scope, Sexp, SyntaxFault,
};
use crate::semantics::{
    at, closure_spec, env_spec, eval_list_spec, eval_spec, fn_spec, form_of, form_spec, frame,
    frame_spec, if_spec, innermost, let_spec, listing, load_spec, print_spec, run_spec, shows,
    special_form, Form, Step, Steps, Stop,
};
use std::rc::Rc;
use vstd::prelude::*;
use vstd::slice::slice_subrange;
use vstd::string::StringExecFns;

verus! {

broadcast use vstd::std_specs::vec::group_vec_axioms;

/// How deep calls may be nested where the caller has no limit of its own.
pub const DEFAULT_DEPTH: usize = 1000;

/// Whether a result, a chain of scopes and a number of exchanges with the
/// host are what a meaning says. A meaning that is off the record says
/// nothing that could be met.
pub open spec fn agrees(r: RispResult, env: Seq<Scope>, end: int, step: Step) -> bool {
    &&& step.1 == at(env, end)
    &&& match step.0 {
        Ok(v) => result_view(r) == Ok::<Sexp, Failure>(v),
        Err(Stop::Fail(f)) => result_view(r) == Err::<Sexp, Failure>(f),
        Err(Stop::OffRecord) => false,
    }
}

/// The same of several results.
pub open spec fn agrees_list(
    r: Result<Vec<RispExp>, RispErr>,
    env: Seq<Scope>,
    end: int,
    steps: Steps,
) -> bool {
    &&& steps.1 == at(env, end)
    &&& match steps.0 {
        Ok(vs) => r matches Ok(v) && sexps(&v) == vs,
        Err(Stop::Fail(f)) => r matches Err(e) && e@ == f,
        Err(Stop::OffRecord) => false,
    }
}

/// Whether a string holds the same text as a literal.
fn is_name(name: &String, literal: &str) -> (r: bool)
    ensures
        r == (name@ == literal@),
{
    *name == literal.to_string()
}

/// The form that a name is reserved for.
pub fn classify(name: &String) -> (r: Option<Form>)
    ensures
        r == form_of(name@),
{
    if is_name(name, "if") {
        Some(Form::If)
    } else if is_name(name, "let") {
        Some(Form::Let)
    } else if is_name(name, "fn") {
        Some(Form::Fn)
    } else if is_name(name, "load") {
        Some(Form::Load)
    } else if is_name(name, "env") {
        Some(Form::Env)
    } else if is_name(name, "print") {
        Some(Form::Print)
    } else {
        None
    }
}

/// Evaluates a call whose head names a special form; gives nothing where
/// the head names none.
fn eval_built_in_func<H: Host>(
    exp: &RispExp,
    args: &[RispExp],
    env: &mut RispEnv,
    session: &mut Session<H>,
    depth: usize,
) -> (r: Option<RispResult>)
    ensures
        old(session)@.is_prefix_of(final(session)@),
        final(env).outer == old(env).outer,
        match special_form(exp@) {
            Some(form) => r matches Some(res) && agrees(
                res,
                final(env)@,
                final(session)@.len() as int,
                form_spec(
                    form,
                    slice_sexps(args@),
                    at(old(env)@, old(session)@.len() as int),
                    depth as nat,
                    final(session)@,
                ),
            ),
            None => r is None && *final(env) == *old(env) && final(session)@ == old(session)@,
        },
    decreases depth, 5nat, 0nat,
{
    proof {
        lemma_prefix_of_push(session@, Event::Write(Seq::empty()));
    }
    match exp {
        RispExp::Symbol(s) => match classify(s) {
            Some(Form::If) => Some(eval_if_arg(args, env, session, depth)),
            Some(Form::Let) => Some(eval_let_arg(args, env, session, depth)),
            Some(Form::Fn) => Some(eval_lambda_arg(args)),
            Some(Form::Load) => Some(eval_load_risp_file(args, env, session, depth)),
            Some(Form::Env) => Some(eval_print_env(env, session)),
            Some(Form::Print) => Some(eval_print(args, env, session)),
            None => None,
        },
        _ => None,
    }
}

/// `(print x)`.
fn eval_print<H: Host>(args: &[RispExp], env: &RispEnv, session: &mut Session<H>) -> (r:
    RispResult)
    ensures
        old(session)@.is_prefix_of(final(session)@),
        agrees(
            r,
            env@,
            final(session)@.len() as int,
            print_spec(slice_sexps(args@), at(env@, old(session)@.len() as int), final(session)@),
        ),
{
    proof {
        lemma_prefix_of_push(session@, Event::Write(Seq::empty()));
    }
    if args.len() == 0 {
        return Err(RispErr::MissingArgument(0));
    }
    let data = match &args[0] {
        RispExp::Symbol(k) => match env.get(k.as_str()) {
            Some(v) => v,
            None => {
                return Err(RispErr::UnboundSymbol(k.clone()));
            },
        },
        other => other.clone(),
    };
    let text = data.to_string();
    let ghost before = session@;
    session.write_line(text.as_str());
    proof {
        lemma_prefix_of_push(before, Event::Write(text@));
        let lines = seq![render(data@)];
        assert(lines[0] == text@);
        assert(shows(session@, before.len() as int, lines));
    }
    Ok(data)
}

/// The line that shows one binding: its name, a colon, and the text of its
/// value.
pub fn binding_line(name: &String, value: &RispExp) -> (r: String)
    ensures
        r@ == name@ + ":"@ + render(value@),
{
    let mut line = name.clone();
    line.append(":");
    let text = value.to_string();
    line.append(text.as_str());
    line
}

/// `(env)`.
#[verifier::loop_isolation(false)]
fn eval_print_env<H: Host>(env: &RispEnv, session: &mut Session<H>) -> (r: RispResult)
    ensures
        old(session)@.is_prefix_of(final(session)@),
        agrees(
            r,
            env@,
            final(session)@.len() as int,
            env_spec(at(env@, old(session)@.len() as int), final(session)@),
        ),
{
    let ghost start = session@;
    let ghost lines = listing(env.bindings());
    assert(innermost(env@) == env.bindings());
    proof {
        lemma_prefix_of_push(start, Event::Write(Seq::empty()));
    }
    let mut i: usize = 0;
    while i < env.data.len()
        invariant
            i <= env.data.len(),
            start.is_prefix_of(session@),
            session@.len() == start.len() + i,
            forall|j: int| 0 <= j < i ==> session@[start.len() + j] == Event::Write(lines[j]),
        decreases env.data.len() - i,
    {
        let line = binding_line(&env.data[i].0, &env.data[i].1);
        let ghost before = session@;
        session.write_line(line.as_str());
        proof {
            lemma_prefix_of_push(before, Event::Write(line@));
            lemma_prefix_of_prefix(start, before, session@);
            assert(lines[i as int] == line@);
        }
        i += 1;
    }
    assert(shows(session@, start.len() as int, lines));
    Ok(RispExp::Nil)
}

/// The path that a `load` form asks the host for: the text of its first
/// argument, which is not evaluated.
pub fn load_path(args: &[RispExp]) -> (r: Option<String>)
    ensures
        match r {
            Some(path) => args@.len() > 0 && path@ == render(args@[0]@),
            None => args@.len() == 0,
        },
{
    if args.len() == 0 {
        None
    } else {
        Some(args[0].to_string())
    }
}

/// What a `load` form gives once the host has answered: the host's refusal
/// as a failure, or what the text of the file means, form by form.
pub fn eval_loaded<H: Host>(
    answer: Result<String, String>,
    env: &mut RispEnv,
    session: &mut Session<H>,
    depth: usize,
) -> (r: RispResult)
    ensures
        old(session)@.is_prefix_of(final(session)@),
        final(env).outer == old(env).outer,
        match answer {
            Ok(script) => agrees(
                r,
                final(env)@,
                final(session)@.len() as int,
                run_spec(
                    tokens_of(script@),
                    at(old(env)@, old(session)@.len() as int),
                    depth as nat,
                    final(session)@,
                ),
            ),
            Err(reason) => result_view(r) == Err::<Sexp, Failure>(Failure::Io(reason@))
                && *final(env) == *old(env) && final(session)@ == old(session)@,
        },
    decreases depth, 3nat, 0nat,
{
    proof {
        lemma_prefix_of_push(session@, Event::Write(Seq::empty()));
    }
    match answer {
        Ok(script) => parse_eval(script, env, session, depth),
        Err(reason) => Err(RispErr::Io(reason)),
    }
}

/// `(load path)`.
fn eval_load_risp_file<H: Host>(
    args: &[RispExp],
    env: &mut RispEnv,
    session: &mut Session<H>,
    depth: usize,
) -> (r: RispResult)
    ensures
        old(session)@.is_prefix_of(final(session)@),
        final(env).outer == old(env).outer,
        agrees(
            r,
            final(env)@,
            final(session)@.len() as int,
            load_spec(
                slice_sexps(args@),
                at(old(env)@, old(session)@.len() as int),
                depth as nat,
                final(session)@,
            ),
        ),
    decreases depth, 4nat, 0nat,
{
    let ghost start = session@;
    proof {
        lemma_prefix_of_push(start, Event::Write(Seq::empty()));
    }
    match load_path(args) {
        None => Err(RispErr::MissingArgument(0)),
        Some(path) => {
            let answer = session.read_text(path.as_str());
            let ghost asked = session@;
            let r = eval_loaded(answer, env, session, depth);
            proof {
                lemma_prefix_of_push(start, asked[start.len() as int]);
                assert(asked =~= start.push(asked[start.len() as int]));
                lemma_prefix_of_prefix(start, asked, session@);
                lemma_prefix_index(asked, session@, start.len() as int);
            }
            r
        },
    }
}

/// `(fn params body..)`.
fn eval_lambda_arg(args: &[RispExp]) -> (r: RispResult)
    ensures
        forall|env: Seq<Scope>, pos: int|
            agrees(r, env, pos, #[trigger] fn_spec(slice_sexps(args@), at(env, pos))),
{
    if args.len() == 0 {
        return Err(RispErr::MissingArgument(0));
    }
    if args.len() == 1 {
        return Err(RispErr::MissingArgument(1));
    }
    let params = args[0].clone();
    let body = clone_all(slice_subrange(args, 1, args.len()));
    assert(sexps(&body) =~= slice_sexps(args@).drop_first());
    Ok(RispExp::Lambda(RispLambda { params_exp: Rc::new(params), body_exp: Rc::new(body) }))
}

/// `(if cond then else)`.
fn eval_if_arg<H: Host>(
    args: &[RispExp],
    env: &mut RispEnv,
    session: &mut Session<H>,
    depth: usize,
) -> (r: RispResult)
    ensures
        old(session)@.is_prefix_of(final(session)@),
        final(env).outer == old(env).outer,
        agrees(
            r,
            final(env)@,
            final(session)@.len() as int,
            if_spec(
                slice_sexps(args@),
                at(old(env)@, old(session)@.len() as int),
                depth as nat,
                final(session)@,
            ),
        ),
    decreases depth, 2nat, 0nat,
{
    let ghost start = session@;
    let ghost st = at(env@, start.len() as int);
    proof {
        lemma_prefix_of_push(start, Event::Write(Seq::empty()));
    }
    if args.len() == 0 {
        return Err(RispErr::MissingArgument(0));
    }
    let if_eval = match eval(&args[0], env, session, depth) {
        Ok(v) => v,
        Err(e) => {
            return Err(e);
        },
    };
    let ghost decided = session@;
    match if_eval {
        RispExp::Bool(b) => {
            let idx: usize = if b {
                1
            } else {
                2
            };
            if idx >= args.len() {
                return Err(RispErr::MissingArgument(idx));
            }
            let r = eval(&args[idx], env, session, depth);
            proof {
                lemma_eval_extends(args@[0]@, st, depth as nat, decided, session@);
                lemma_prefix_of_prefix(start, decided, session@);
            }
            r
        },
        _ => Err(RispErr::TypeMismatch(Expected::Bool)),
    }
}

/// `(let symbol expr)`.
fn eval_let_arg<H: Host>(
    args: &[RispExp],
    env: &mut RispEnv,
    session: &mut Session<H>,
    depth: usize,
) -> (r: RispResult)
    ensures
        old(session)@.is_prefix_of(final(session)@),
        final(env).outer == old(env).outer,
        agrees(
            r,
            final(env)@,
            final(session)@.len() as int,
            let_spec(
                slice_sexps(args@),
                at(old(env)@, old(session)@.len() as int),
                depth as nat,
                final(session)@,
            ),
        ),
    decreases depth, 2nat, 0nat,
{
    proof {
        lemma_prefix_of_push(session@, Event::Write(Seq::empty()));
    }
    if args.len() != 2 {
        return Err(RispErr::Arity { expected: 2, actual: args.len() });
    }
    let symbol = match &args[0] {
        RispExp::Symbol(s) => s.clone(),
        _ => {
            return Err(RispErr::TypeMismatch(Expected::Symbol));
        },
    };
    let value = match eval(&args[1], env, session, depth) {
        Ok(v) => v,
        Err(e) => {
            return Err(e);
        },
    };
    env.insert(symbol, value);
    Ok(args[0].clone())
}

/// Evaluates expressions from left to right; the first failure ends it.
#[verifier::loop_isolation(false)]
fn eval_list<H: Host>(
    args: &[RispExp],
    env: &mut RispEnv,
    session: &mut Session<H>,
    depth: usize,
) -> (r: Result<Vec<RispExp>, RispErr>)
    ensures
        old(session)@.is_prefix_of(final(session)@),
        final(env).outer == old(env).outer,
        r matches Ok(v) ==> v@.len() == args@.len(),
        agrees_list(
            r,
            final(env)@,
            final(session)@.len() as int,
            eval_list_spec(
                slice_sexps(args@),
                args@.len() as int,
                at(old(env)@, old(session)@.len() as int),
                depth as nat,
                final(session)@,
            ),
        ),
    decreases depth, 1nat, 0nat,
{
    let ghost items = slice_sexps(args@);
    let ghost start = session@;
    let ghost st = at(env@, start.len() as int);
    let ghost outer = env.outer;
    let mut out: Vec<RispExp> = Vec::new();
    let mut i: usize = 0;
    proof {
        lemma_prefix_of_push(start, Event::Write(Seq::empty()));
        assert(sexps(&out) =~= Seq::<Sexp>::empty());
    }
    while i < args.len()
        invariant
            i <= args@.len(),
            out@.len() == i,
            env.outer == outer,
            start.is_prefix_of(session@),
            eval_list_spec(items, i as int, st, depth as nat, session@) == (
                Ok::<Seq<Sexp>, Stop>(sexps(&out)),
                at(env@, session@.len() as int),
            ),
        decreases args@.len() - i,
    {
        let ghost done = sexps(&out);
        let ghost before = session@;
        match eval(&args[i], env, session, depth) {
            Ok(v) => {
                out.push(v);
                proof {
                    lemma_list_extends(items, i as int, st, depth as nat, before, session@);
                    lemma_prefix_of_prefix(start, before, session@);
                    assert(sexps(&out) =~= done.push(v@));
                }
            },
            Err(e) => {
                proof {
                    lemma_list_extends(items, i as int, st, depth as nat, before, session@);
                    lemma_prefix_of_prefix(start, before, session@);
                    lemma_list_sticks(
                        items,
                        i + 1,
                        items.len() as int,
                        st,
                        depth as nat,
                        session@,
                    );
                }
                return Err(e);
            },
        }
        i += 1;
    }
    Ok(out)
}

/// The bindings of the scope in which the body of a closure runs.
fn env_for_lambda<H: Host>(
    params_exp: &Rc<RispExp>,
    args: &[RispExp],
    outer_env: &mut RispEnv,
    session: &mut Session<H>,
    depth: usize,
) -> (r: Result<Vec<(String, RispExp)>, RispErr>)
    ensures
        old(session)@.is_prefix_of(final(session)@),
        final(outer_env).outer == old(outer_env).outer,
        frame_spec(
            (**params_exp)@,
            slice_sexps(args@),
            at(old(outer_env)@, old(session)@.len() as int),
            depth as nat,
            final(session)@,
        ).1 == at(final(outer_env)@, final(session)@.len() as int),
        match frame_spec(
            (**params_exp)@,
            slice_sexps(args@),
            at(old(outer_env)@, old(session)@.len() as int),
            depth as nat,
            final(session)@,
        ).0 {
            Ok(scope) => r matches Ok(data) && pairs_view(data@) == scope,
            Err(Stop::Fail(f)) => r matches Err(e) && e@ == f,
            Err(Stop::OffRecord) => false,
        },
    decreases depth, 2nat, 0nat,
{
    proof {
        lemma_prefix_of_push(session@, Event::Write(Seq::empty()));
    }
    let symbols = match parse_list_of_symbol_strings(share(params_exp)) {
        Ok(s) => s,
        Err(e) => {
            return Err(e);
        },
    };
    if symbols.len() != args.len() {
        return Err(RispErr::Arity { expected: symbols.len(), actual: args.len() });
    }
    let values = match eval_list(args, outer_env, session, depth) {
        Ok(v) => v,
        Err(e) => {
            return Err(e);
        },
    };
    let ghost names = texts(symbols@);
    let ghost vals = sexps(&values);
    let mut local = RispEnv::new(None);
    let mut i: usize = 0;
    while i < symbols.len()
        invariant
            i <= symbols.len(),
            symbols.len() == values.len(),
            names == texts(symbols@),
            vals == sexps(&values),
            local.bindings() == frame(names, vals, i as int),
        decreases symbols.len() - i,
    {
        local.insert(symbols[i].clone(), values[i].clone());
        i += 1;
    }
    Ok(local.data)
}

/// Calls a closure.
fn call_lambda<H: Host>(
    lambda: &RispLambda,
    args: &[RispExp],
    env: &mut RispEnv,
    session: &mut Session<H>,
    depth: usize,
) -> (r: RispResult)
    ensures
        old(session)@.is_prefix_of(final(session)@),
        final(env).outer == old(env).outer,
        agrees(
            r,
            final(env)@,
            final(session)@.len() as int,
            closure_spec(
                (*lambda.params_exp)@,
                sexps(&*lambda.body_exp),
                slice_sexps(args@),
                at(old(env)@, old(session)@.len() as int),
                depth as nat,
                final(session)@,
            ),
        ),
    decreases depth, 3nat, 0nat,
{
    let ghost start = session@;
    let ghost st = at(env@, start.len() as int);
    let data = match env_for_lambda(&lambda.params_exp, args, env, session, depth) {
        Ok(d) => d,
        Err(e) => {
            return Err(e);
        },
    };
    let ghost bound = session@;
    let mut local = RispEnv { data, outer: Some(&*env) };
    assert(local@ =~= seq![local.bindings()] + env@);
    let body = lambda.body_exp.as_slice();
    assert(slice_sexps(body@) =~= sexps(&*lambda.body_exp));
    let results = eval_list(body, &mut local, session, depth);
    proof {
        lemma_frame_extends(
            (*lambda.params_exp)@,
            slice_sexps(args@),
            st,
            depth as nat,
            bound,
            session@,
        );
        lemma_prefix_of_prefix(start, bound, session@);
    }
    match results {
        Ok(values) => {
            if values.len() == 0 {
                Err(RispErr::MissingArgument(1))
            } else {
                Ok(values[values.len() - 1].clone())
            }
        },
        Err(e) => Err(e),
    }
}

/// Evaluates an expression in a chain of scopes.
///
/// The result and the chain afterwards are what `eval_spec` says for the
/// exchanges with the host that the session records, and the record grows
/// by exactly the exchanges that `eval_spec` names: each `load` asks the
/// host for the path that it says, each `print` and `env` hands over the
/// lines that it says. The scopes that enclose the innermost one are never
/// changed. Calls nested deeper than `depth` fail with `DepthExceeded`.
pub fn eval<H: Host>(
    exp: &RispExp,
    env: &mut RispEnv,
    session: &mut Session<H>,
    depth: usize,
) -> (r: RispResult)
    ensures
        old(session)@.is_prefix_of(final(session)@),
        final(env).outer == old(env).outer,
        agrees(
            r,
            final(env)@,
            final(session)@.len() as int,
            eval_spec(
                exp@,
                at(old(env)@, old(session)@.len() as int),
                depth as nat,
                final(session)@,
            ),
        ),
    decreases depth, 0nat, 0nat,
{
    let ghost start = session@;
    let ghost st = at(env@, start.len() as int);
    proof {
        lemma_prefix_of_push(start, Event::Write(Seq::empty()));
    }
    match exp {
        RispExp::Nil => Ok(RispExp::Nil),
        RispExp::Bool(b) => Ok(RispExp::Bool(*b)),
        RispExp::Number(n) => Ok(RispExp::Number(*n)),
        RispExp::Literal(s) => Ok(RispExp::Literal(s.clone())),
        RispExp::Symbol(k) => match env.get(k.as_str()) {
            Some(v) => Ok(v),
            None => Err(RispErr::UnboundSymbol(k.clone())),
        },
        RispExp::List(list) => {
            assert(sexps(list).len() == list.len());
            if list.len() == 0 {
                return Err(RispErr::Syntax(SyntaxFault::EmptyCall));
            }
            if depth == 0 {
                return Err(RispErr::DepthExceeded);
            }
            let first = &list[0];
            let args = slice_subrange(list.as_slice(), 1, list.len());
            assert(slice_sexps(args@) =~= sexps(list).drop_first());
            match eval_built_in_func(first, args, env, session, depth - 1) {
                Some(res) => res,
                None => {
                    let first_eval = match eval(first, env, session, depth - 1) {
                        Ok(v) => v,
                        Err(e) => {
                            return Err(e);
                        },
                    };
                    let ghost headed = session@;
                    match first_eval {
                        RispExp::Func(f) => {
                            let evaluated = eval_list(args, env, session, depth - 1);
                            proof {
                                lemma_eval_extends(
                                    first@,
                                    st,
                                    (depth - 1) as nat,
                                    headed,
                                    session@,
                                );
                                lemma_prefix_of_prefix(start, headed, session@);
                            }
                            let values = match evaluated {
                                Ok(v) => v,
                                Err(e) => {
                                    return Err(e);
                                },
                            };
                            assert(slice_sexps(values@) =~= sexps(&values));
                            apply_primitive(f, values.as_slice())
                        },
                        RispExp::Lambda(lambda) => {
                            let r = call_lambda(&lambda, args, env, session, depth - 1);
                            proof {
                                lemma_eval_extends(
                                    first@,
                                    st,
                                    (depth - 1) as nat,
                                    headed,
                                    session@,
                                );
                                lemma_prefix_of_prefix(start, headed, session@);
                            }
                            r
                        },
                        _ => Err(RispErr::InvalidCallee(first.to_string())),
                    }
                },
            }
        },
        RispExp::Func(_) => Err(RispErr::Syntax(SyntaxFault::FunctionValue)),
        RispExp::Lambda(_) => Err(RispErr::Syntax(SyntaxFault::FunctionValue)),
    }
}

} // verus!
