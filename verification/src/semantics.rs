//! What a program means.
//!
//! The meaning of an expression is a value or a failure, together with the
//! chain of scopes that its evaluation leaves. Evaluation also talks to the
//! host: `load` asks it for a file, `print` and `env` hand it lines. The
//! meaning is therefore given against a record of those exchanges: it says
//! which exchange comes next, and goes on with the answer that the record
//! holds. A record that does not go on as the evaluation does gives
//! `Stop::OffRecord`.
//!
//! Evaluation is bounded: a call may be nested `depth` levels deep, and a
//! program that goes deeper fails with `DepthExceeded`.

use crate::host::Event;
use crate::parser::{
    lemma_parse_advances, param_names, parse_spec, symbol_name, tokens_of,
};
use crate::primitives::apply_spec;
use crate::risp_type::{
    bind, lookup, put, render, Expected, Failure, Scope, Sexp, SyntaxFault,
};
use vstd::prelude::*;

verus! {

/// The forms that are recognised by the name at their head, before anything
/// is evaluated.
#[derive(Clone, Copy, PartialEq, Eq, Structural, Debug)]
pub enum Form {
    If,
    Let,
    Fn,
    Load,
    Env,
    Print,
}

/// The form that a name is reserved for.
pub open spec fn form_of(name: Seq<char>) -> Option<Form> {
    if name == "if"@ {
        Some(Form::If)
    } else if name == "let"@ {
        Some(Form::Let)
    } else if name == "fn"@ {
        Some(Form::Fn)
    } else if name == "load"@ {
        Some(Form::Load)
    } else if name == "env"@ {
        Some(Form::Env)
    } else if name == "print"@ {
        Some(Form::Print)
    } else {
        None
    }
}

/// The form that the head of a call selects: that of its name, where the
/// head is a symbol.
pub open spec fn special_form(head: Sexp) -> Option<Form> {
    match head {
        Sexp::Symbol(s) => form_of(s),
        _ => None,
    }
}

/// Why an evaluation gives no value.
pub enum Stop {
    /// It fails.
    Fail(Failure),
    /// The record of the exchanges with the host ends, or goes on with
    /// another exchange than the evaluation makes next.
    OffRecord,
}

/// Where an evaluation stands: the chain of scopes, innermost first, and
/// the number of exchanges with the host so far.
pub struct State {
    pub env: Seq<Scope>,
    pub pos: int,
}

/// The state with these scopes after this many exchanges.
pub open spec fn at(env: Seq<Scope>, pos: int) -> State {
    State { env, pos }
}

/// What an evaluation gives, and the state that it leaves.
pub type Step = (Result<Sexp, Stop>, State);

/// What the evaluation of several expressions gives, and the state that it
/// leaves.
pub type Steps = (Result<Seq<Sexp>, Stop>, State);

/// A failure in a state.
pub open spec fn fail(f: Failure, st: State) -> Step {
    (Err(Stop::Fail(f)), st)
}

/// Whether an evaluation stayed on the record.
pub open spec fn on_record<T>(result: Result<T, Stop>) -> bool {
    result != Err::<T, Stop>(Stop::OffRecord)
}

/// The scope of a call: each of the first `n` names bound to its value, one
/// after the other.
pub open spec fn frame(names: Seq<Seq<char>>, values: Seq<Sexp>, n: int) -> Scope
    decreases n,
{
    if n <= 0 {
        Seq::empty()
    } else {
        put(frame(names, values, n - 1), names[n - 1], values[n - 1])
    }
}

/// Whether the record holds these lines, one after the other, as what was
/// handed to the host from exchange `pos` on.
pub open spec fn shows(log: Seq<Event>, pos: int, lines: Seq<Seq<char>>) -> bool {
    &&& 0 <= pos
    &&& pos + lines.len() <= log.len()
    &&& forall|j: int| 0 <= j < lines.len() ==> log[pos + j] == Event::Write(#[trigger] lines[j])
}

/// A value that is given once these lines have been handed to the host.
pub open spec fn after_writing(lines: Seq<Seq<char>>, value: Sexp, st: State, log: Seq<Event>) -> Step {
    if shows(log, st.pos, lines) {
        (Ok(value), at(st.env, st.pos + lines.len()))
    } else {
        (Err(Stop::OffRecord), st)
    }
}

/// The lines that show the bindings of a scope: for each, its name, a colon
/// and the text of its value.
pub open spec fn listing(scope: Scope) -> Seq<Seq<char>> {
    Seq::new(scope.len(), |j: int| scope[j].0 + ":"@ + render(scope[j].1))
}

/// The innermost scope of a chain.
pub open spec fn innermost(env: Seq<Scope>) -> Scope {
    if env.len() > 0 {
        env[0]
    } else {
        Seq::empty()
    }
}

/// The expressions of a text from token `from` on, as far as they can be
/// read, and the failure that ends the reading where it does not reach the
/// end of the tokens.
pub open spec fn read_all(tokens: Seq<Seq<char>>, from: int) -> (Seq<Sexp>, Option<Failure>)
    decreases tokens.len() - from,
{
    match parse_spec(tokens, from) {
        Err(f) => (Seq::empty(), Some(f)),
        Ok((exp, next)) => {
            proof {
                lemma_parse_advances(tokens, from);
            }
            if next >= tokens.len() {
                (seq![exp], None)
            } else {
                let (rest, failure) = read_all(tokens, next);
                (seq![exp] + rest, failure)
            }
        },
    }
}

/// The meaning of an expression.
///
/// Atoms other than symbols mean themselves; a symbol means what the chain
/// binds it to; a function value is no expression; a list is a call.
pub open spec fn eval_spec(exp: Sexp, st: State, depth: nat, log: Seq<Event>) -> Step
    decreases depth, 0nat, 0nat,
{
    match exp {
        Sexp::Nil | Sexp::Bool(_) | Sexp::Number(_) | Sexp::Literal(_) => (Ok(exp), st),
        Sexp::Symbol(k) => match lookup(st.env, k) {
            Some(v) => (Ok(v), st),
            None => fail(Failure::UnboundSymbol(k), st),
        },
        Sexp::Func(_) | Sexp::Lambda(_, _) => fail(Failure::Syntax(SyntaxFault::FunctionValue), st),
        Sexp::List(items) => if items.len() == 0 {
            fail(Failure::Syntax(SyntaxFault::EmptyCall), st)
        } else if depth == 0 {
            fail(Failure::DepthExceeded, st)
        } else {
            call_spec(items[0], items.drop_first(), st, (depth - 1) as nat, log)
        },
    }
}

/// The meaning of the first `n` expressions of a sequence, evaluated from
/// left to right, each in the state that the one before it leaves. The
/// first that gives no value ends the evaluation.
pub open spec fn eval_list_spec(
    items: Seq<Sexp>,
    n: int,
    st: State,
    depth: nat,
    log: Seq<Event>,
) -> Steps
    decreases depth, 1nat, n,
{
    if n <= 0 {
        (Ok(Seq::empty()), st)
    } else {
        let (before, st1) = eval_list_spec(items, n - 1, st, depth, log);
        match before {
            Err(stop) => (Err(stop), st1),
            Ok(values) => {
                let (last, st2) = eval_spec(items[n - 1], st1, depth, log);
                match last {
                    Err(stop) => (Err(stop), st2),
                    Ok(value) => (Ok(values.push(value)), st2),
                }
            },
        }
    }
}

/// The meaning of `(if cond then else)`.
pub open spec fn if_spec(args: Seq<Sexp>, st: State, depth: nat, log: Seq<Event>) -> Step
    decreases depth, 2nat, 0nat,
{
    if args.len() == 0 {
        fail(Failure::MissingArgument(0), st)
    } else {
        let (cond, st1) = eval_spec(args[0], st, depth, log);
        match cond {
            Err(stop) => (Err(stop), st1),
            Ok(Sexp::Bool(b)) => {
                let idx: int = if b {
                    1
                } else {
                    2
                };
                if idx >= args.len() {
                    fail(Failure::MissingArgument(idx as nat), st1)
                } else {
                    eval_spec(args[idx], st1, depth, log)
                }
            },
            Ok(_) => fail(Failure::TypeMismatch(Expected::Bool), st1),
        }
    }
}

/// The meaning of `(let symbol expr)`: the name is bound in the innermost
/// scope once the expression has given a value, and not before.
pub open spec fn let_spec(args: Seq<Sexp>, st: State, depth: nat, log: Seq<Event>) -> Step
    decreases depth, 2nat, 0nat,
{
    if args.len() != 2 {
        fail(Failure::Arity { expected: 2, actual: args.len() }, st)
    } else {
        match args[0] {
            Sexp::Symbol(name) => {
                let (value, st1) = eval_spec(args[1], st, depth, log);
                match value {
                    Err(stop) => (Err(stop), st1),
                    Ok(v) => (Ok(args[0]), at(bind(st1.env, name, v), st1.pos)),
                }
            },
            _ => fail(Failure::TypeMismatch(Expected::Symbol), st),
        }
    }
}

/// The meaning of `(fn params body..)`: a closure of the parameter list and
/// of the body, which holds one expression or more. Nothing is evaluated.
pub open spec fn fn_spec(args: Seq<Sexp>, st: State) -> Step {
    if args.len() == 0 {
        fail(Failure::MissingArgument(0), st)
    } else if args.len() == 1 {
        fail(Failure::MissingArgument(1), st)
    } else {
        (Ok(Sexp::Lambda(Box::new(args[0]), args.drop_first())), st)
    }
}

/// What `(print x)` shows and gives: what a symbol is bound to, or the
/// argument itself where it is no symbol. The argument is not evaluated.
pub open spec fn printed(arg: Sexp, env: Seq<Scope>) -> Option<Sexp> {
    match arg {
        Sexp::Symbol(k) => lookup(env, k),
        other => Some(other),
    }
}

/// The meaning of `(print x)`: the text of the value is handed to the host
/// as one line, and the value is given.
pub open spec fn print_spec(args: Seq<Sexp>, st: State, log: Seq<Event>) -> Step {
    if args.len() == 0 {
        fail(Failure::MissingArgument(0), st)
    } else {
        match printed(args[0], st.env) {
            None => fail(Failure::UnboundSymbol(symbol_name(args[0])), st),
            Some(v) => after_writing(seq![render(v)], v, st, log),
        }
    }
}

/// The meaning of `(env)`: the bindings of the innermost scope are handed
/// to the host, one line each, in their order; the value is `Nil`.
pub open spec fn env_spec(st: State, log: Seq<Event>) -> Step {
    after_writing(listing(innermost(st.env)), Sexp::Nil, st, log)
}

/// The meaning of a text: its expressions are read as far as they can be,
/// and evaluated one after the other. The first that gives no value ends
/// the run; else a failure to read the text through is the result; else the
/// value of the last expression.
pub open spec fn run_spec(tokens: Seq<Seq<char>>, st: State, depth: nat, log: Seq<Event>) -> Step
    decreases depth, 2nat, 0nat,
{
    let (forms, failure) = read_all(tokens, 0);
    let (values, st1) = eval_list_spec(forms, forms.len() as int, st, depth, log);
    match values {
        Err(stop) => (Err(stop), st1),
        Ok(vs) => match failure {
            Some(f) => fail(f, st1),
            None => if vs.len() == 0 {
                fail(Failure::Syntax(SyntaxFault::EmptyInput), st1)
            } else {
                (Ok(vs.last()), st1)
            },
        },
    }
}

/// The meaning of `(load path)`: the host is asked for the file whose path
/// is the text of the argument, which is not evaluated. Its refusal is a
/// failure; else the text that it hands over is run.
pub open spec fn load_spec(args: Seq<Sexp>, st: State, depth: nat, log: Seq<Event>) -> Step
    decreases depth, 3nat, 0nat,
{
    if args.len() == 0 {
        fail(Failure::MissingArgument(0), st)
    } else if 0 <= st.pos < log.len() {
        match log[st.pos] {
            Event::Read(path, answer) => if path == render(args[0]) {
                match answer {
                    Ok(text) => run_spec(tokens_of(text), at(st.env, st.pos + 1), depth, log),
                    Err(reason) => fail(Failure::Io(reason), at(st.env, st.pos + 1)),
                }
            } else {
                (Err(Stop::OffRecord), st)
            },
            Event::Write(_) => (Err(Stop::OffRecord), st),
        }
    } else {
        (Err(Stop::OffRecord), st)
    }
}

/// The meaning of a special form applied to its unevaluated arguments.
pub open spec fn form_spec(
    form: Form,
    args: Seq<Sexp>,
    st: State,
    depth: nat,
    log: Seq<Event>,
) -> Step
    decreases depth, 4nat, 0nat,
{
    match form {
        Form::If => if_spec(args, st, depth, log),
        Form::Let => let_spec(args, st, depth, log),
        Form::Fn => fn_spec(args, st),
        Form::Load => load_spec(args, st, depth, log),
        Form::Env => env_spec(st, log),
        Form::Print => print_spec(args, st, log),
    }
}

/// The scope in which the body of a closure runs: the parameter list must
/// declare names, as many as there are arguments; then the arguments are
/// evaluated in the caller's chain, from left to right, and each name is
/// bound to its argument's value.
pub open spec fn frame_spec(
    params: Sexp,
    args: Seq<Sexp>,
    st: State,
    depth: nat,
    log: Seq<Event>,
) -> (Result<Scope, Stop>, State)
    decreases depth, 2nat, 0nat,
{
    match param_names(params) {
        Err(f) => (Err(Stop::Fail(f)), st),
        Ok(names) => if names.len() != args.len() {
            (Err(Stop::Fail(Failure::Arity { expected: names.len(), actual: args.len() })), st)
        } else {
            let (values, st1) = eval_list_spec(args, args.len() as int, st, depth, log);
            match values {
                Err(stop) => (Err(stop), st1),
                Ok(vs) => (Ok(frame(names, vs, names.len() as int)), st1),
            }
        },
    }
}

/// The meaning of a call of a closure: the body runs in a new scope inside
/// the caller's chain, and its last expression gives the value. The caller's
/// chain is left as the evaluation of the arguments left it.
pub open spec fn closure_spec(
    params: Sexp,
    body: Seq<Sexp>,
    args: Seq<Sexp>,
    st: State,
    depth: nat,
    log: Seq<Event>,
) -> Step
    decreases depth, 3nat, 0nat,
{
    let (scope, st1) = frame_spec(params, args, st, depth, log);
    match scope {
        Err(stop) => (Err(stop), st1),
        Ok(local) => {
            let (results, st2) = eval_list_spec(
                body,
                body.len() as int,
                at(seq![local] + st1.env, st1.pos),
                depth,
                log,
            );
            let st3 = at(st1.env, st2.pos);
            match results {
                Err(stop) => (Err(stop), st3),
                Ok(values) => if values.len() == 0 {
                    fail(Failure::MissingArgument(1), st3)
                } else {
                    (Ok(values.last()), st3)
                },
            }
        },
    }
}

/// The meaning of a call: a special form where the head names one; else the
/// head is evaluated, and must give a built-in function, which gets the
/// values of the arguments, or a closure.
pub open spec fn call_spec(
    head: Sexp,
    args: Seq<Sexp>,
    st: State,
    depth: nat,
    log: Seq<Event>,
) -> Step
    decreases depth, 5nat, 0nat,
{
    match special_form(head) {
        Some(form) => form_spec(form, args, st, depth, log),
        None => {
            let (callee, st1) = eval_spec(head, st, depth, log);
            match callee {
                Err(stop) => (Err(stop), st1),
                Ok(Sexp::Func(p)) => {
                    let (values, st2) = eval_list_spec(args, args.len() as int, st1, depth, log);
                    match values {
                        Err(stop) => (Err(stop), st2),
                        Ok(vs) => match apply_spec(p, vs) {
                            Ok(v) => (Ok(v), st2),
                            Err(f) => fail(f, st2),
                        },
                    }
                },
                Ok(Sexp::Lambda(params, body)) => closure_spec(
                    *params,
                    body,
                    args,
                    st1,
                    depth,
                    log,
                ),
                Ok(_) => fail(Failure::InvalidCallee(render(head)), st1),
            }
        },
    }
}

} // verus!
