//! The meaning of a program does not change when the record of the
//! exchanges with the host grows: what was decided on a record is decided
//! the same way on every record that begins with it.

use crate::host::Event;
use crate::parser::{param_names, tokens_of};
use crate::risp_type::{render, Sexp};
use crate::semantics::{
    after_writing, at, call_spec, closure_spec, eval_list_spec, eval_spec, form_spec, frame_spec,
    if_spec, innermost, let_spec, listing, load_spec, on_record, printed, read_all, run_spec,
    shows, special_form, Form, State,
};
use vstd::prelude::*;

verus! {

/// A sequence that begins with another holds the same items at the same
/// places.
pub proof fn lemma_prefix_index<T>(a: Seq<T>, b: Seq<T>, i: int)
    requires
        a.is_prefix_of(b),
        0 <= i < a.len(),
    ensures
        b[i] == a[i],
{
    assert(a[i] == b.subrange(0, a.len() as int)[i]);
}

/// Lines that a record shows are shown by every record that begins with it.
pub proof fn lemma_shows_extends(log: Seq<Event>, longer: Seq<Event>, pos: int, lines: Seq<Seq<char>>)
    requires
        log.is_prefix_of(longer),
        shows(log, pos, lines),
    ensures
        shows(longer, pos, lines),
{
    assert forall|j: int| 0 <= j < lines.len() implies longer[pos + j] == Event::Write(
        #[trigger] lines[j],
    ) by {
        lemma_prefix_index(log, longer, pos + j);
    }
}

/// What was handed to the host on a record was handed over on every record
/// that begins with it.
pub proof fn lemma_after_writing_extends(
    lines: Seq<Seq<char>>,
    value: Sexp,
    st: State,
    log: Seq<Event>,
    longer: Seq<Event>,
)
    requires
        log.is_prefix_of(longer),
        on_record(after_writing(lines, value, st, log).0),
    ensures
        after_writing(lines, value, st, longer) == after_writing(lines, value, st, log),
{
    lemma_shows_extends(log, longer, st.pos, lines);
}

/// The meaning of an expression on a record is its meaning on every record
/// that begins with it.
pub proof fn lemma_eval_extends(
    exp: Sexp,
    st: State,
    depth: nat,
    log: Seq<Event>,
    longer: Seq<Event>,
)
    requires
        log.is_prefix_of(longer),
        on_record(eval_spec(exp, st, depth, log).0),
    ensures
        eval_spec(exp, st, depth, longer) == eval_spec(exp, st, depth, log),
    decreases depth, 0nat, 0nat,
{
    match exp {
        Sexp::List(items) => {
            if items.len() > 0 && depth > 0 {
                lemma_call_extends(items[0], items.drop_first(), st, (depth - 1) as nat, log, longer);
            }
        },
        _ => {},
    }
}

/// The same of the first `n` expressions of a sequence.
pub proof fn lemma_list_extends(
    items: Seq<Sexp>,
    n: int,
    st: State,
    depth: nat,
    log: Seq<Event>,
    longer: Seq<Event>,
)
    requires
        log.is_prefix_of(longer),
        on_record(eval_list_spec(items, n, st, depth, log).0),
    ensures
        eval_list_spec(items, n, st, depth, longer) == eval_list_spec(items, n, st, depth, log),
    decreases depth, 1nat, n,
{
    if n > 0 {
        lemma_list_extends(items, n - 1, st, depth, log, longer);
        let (before, st1) = eval_list_spec(items, n - 1, st, depth, log);
        if before is Ok {
            lemma_eval_extends(items[n - 1], st1, depth, log, longer);
        }
    }
}

proof fn lemma_if_extends(args: Seq<Sexp>, st: State, depth: nat, log: Seq<Event>, longer: Seq<Event>)
    requires
        log.is_prefix_of(longer),
        on_record(if_spec(args, st, depth, log).0),
    ensures
        if_spec(args, st, depth, longer) == if_spec(args, st, depth, log),
    decreases depth, 2nat, 0nat,
{
    if args.len() > 0 {
        lemma_eval_extends(args[0], st, depth, log, longer);
        let (cond, st1) = eval_spec(args[0], st, depth, log);
        match cond {
            Ok(Sexp::Bool(b)) => {
                let idx: int = if b {
                    1
                } else {
                    2
                };
                if idx < args.len() {
                    lemma_eval_extends(args[idx], st1, depth, log, longer);
                }
            },
            _ => {},
        }
    }
}

proof fn lemma_let_extends(args: Seq<Sexp>, st: State, depth: nat, log: Seq<Event>, longer: Seq<Event>)
    requires
        log.is_prefix_of(longer),
        on_record(let_spec(args, st, depth, log).0),
    ensures
        let_spec(args, st, depth, longer) == let_spec(args, st, depth, log),
    decreases depth, 2nat, 0nat,
{
    if args.len() == 2 {
        match args[0] {
            Sexp::Symbol(_) => {
                lemma_eval_extends(args[1], st, depth, log, longer);
            },
            _ => {},
        }
    }
}

/// The same of a text.
pub proof fn lemma_run_extends(
    tokens: Seq<Seq<char>>,
    st: State,
    depth: nat,
    log: Seq<Event>,
    longer: Seq<Event>,
)
    requires
        log.is_prefix_of(longer),
        on_record(run_spec(tokens, st, depth, log).0),
    ensures
        run_spec(tokens, st, depth, longer) == run_spec(tokens, st, depth, log),
    decreases depth, 2nat, 0nat,
{
    let (forms, failure) = read_all(tokens, 0);
    lemma_list_extends(forms, forms.len() as int, st, depth, log, longer);
}

proof fn lemma_load_extends(args: Seq<Sexp>, st: State, depth: nat, log: Seq<Event>, longer: Seq<Event>)
    requires
        log.is_prefix_of(longer),
        on_record(load_spec(args, st, depth, log).0),
    ensures
        load_spec(args, st, depth, longer) == load_spec(args, st, depth, log),
    decreases depth, 3nat, 0nat,
{
    if args.len() > 0 {
        lemma_prefix_index(log, longer, st.pos);
        match log[st.pos] {
            Event::Read(path, answer) => {
                match answer {
                    Ok(text) => {
                        lemma_run_extends(tokens_of(text), at(st.env, st.pos + 1), depth, log, longer);
                    },
                    Err(_) => {},
                }
            },
            Event::Write(_) => {},
        }
    }
}

proof fn lemma_form_extends(
    form: Form,
    args: Seq<Sexp>,
    st: State,
    depth: nat,
    log: Seq<Event>,
    longer: Seq<Event>,
)
    requires
        log.is_prefix_of(longer),
        on_record(form_spec(form, args, st, depth, log).0),
    ensures
        form_spec(form, args, st, depth, longer) == form_spec(form, args, st, depth, log),
    decreases depth, 4nat, 0nat,
{
    match form {
        Form::If => lemma_if_extends(args, st, depth, log, longer),
        Form::Let => lemma_let_extends(args, st, depth, log, longer),
        Form::Fn => {},
        Form::Load => lemma_load_extends(args, st, depth, log, longer),
        Form::Env => {
            lemma_after_writing_extends(listing(innermost(st.env)), Sexp::Nil, st, log, longer);
        },
        Form::Print => {
            if args.len() > 0 {
                match printed(args[0], st.env) {
                    Some(v) => {
                        lemma_after_writing_extends(seq![render(v)], v, st, log, longer);
                    },
                    None => {},
                }
            }
        },
    }
}

/// The same of the scope of a call.
pub proof fn lemma_frame_extends(
    params: Sexp,
    args: Seq<Sexp>,
    st: State,
    depth: nat,
    log: Seq<Event>,
    longer: Seq<Event>,
)
    requires
        log.is_prefix_of(longer),
        on_record(frame_spec(params, args, st, depth, log).0),
    ensures
        frame_spec(params, args, st, depth, longer) == frame_spec(params, args, st, depth, log),
    decreases depth, 2nat, 0nat,
{
    match param_names(params) {
        Ok(names) => {
            if names.len() == args.len() {
                lemma_list_extends(args, args.len() as int, st, depth, log, longer);
            }
        },
        Err(_) => {},
    }
}

proof fn lemma_closure_extends(
    params: Sexp,
    body: Seq<Sexp>,
    args: Seq<Sexp>,
    st: State,
    depth: nat,
    log: Seq<Event>,
    longer: Seq<Event>,
)
    requires
        log.is_prefix_of(longer),
        on_record(closure_spec(params, body, args, st, depth, log).0),
    ensures
        closure_spec(params, body, args, st, depth, longer) == closure_spec(
            params,
            body,
            args,
            st,
            depth,
            log,
        ),
    decreases depth, 3nat, 0nat,
{
    lemma_frame_extends(params, args, st, depth, log, longer);
    let (scope, st1) = frame_spec(params, args, st, depth, log);
    match scope {
        Ok(local) => {
            lemma_list_extends(
                body,
                body.len() as int,
                at(seq![local] + st1.env, st1.pos),
                depth,
                log,
                longer,
            );
        },
        Err(_) => {},
    }
}

proof fn lemma_call_extends(
    head: Sexp,
    args: Seq<Sexp>,
    st: State,
    depth: nat,
    log: Seq<Event>,
    longer: Seq<Event>,
)
    requires
        log.is_prefix_of(longer),
        on_record(call_spec(head, args, st, depth, log).0),
    ensures
        call_spec(head, args, st, depth, longer) == call_spec(head, args, st, depth, log),
    decreases depth, 5nat, 0nat,
{
    match special_form(head) {
        Some(form) => lemma_form_extends(form, args, st, depth, log, longer),
        None => {
            lemma_eval_extends(head, st, depth, log, longer);
            let (callee, st1) = eval_spec(head, st, depth, log);
            match callee {
                Ok(Sexp::Func(p)) => {
                    lemma_list_extends(args, args.len() as int, st1, depth, log, longer);
                },
                Ok(Sexp::Lambda(params, body)) => {
                    lemma_closure_extends(*params, body, args, st1, depth, log, longer);
                },
                _ => {},
            }
        },
    }
}

/// Once one of the first expressions of a sequence gives no value, the
/// later ones change nothing.
pub proof fn lemma_list_sticks(
    items: Seq<Sexp>,
    k: int,
    n: int,
    st: State,
    depth: nat,
    log: Seq<Event>,
)
    requires
        k <= n,
        eval_list_spec(items, k, st, depth, log).0 is Err,
    ensures
        eval_list_spec(items, n, st, depth, log) == eval_list_spec(items, k, st, depth, log),
    decreases n - k,
{
    if k < n {
        lemma_list_sticks(items, k, n - 1, st, depth, log);
    }
}

/// What the first `n` expressions of a sequence mean does not depend on the
/// expressions after them.
pub proof fn lemma_list_only_first(
    a: Seq<Sexp>,
    b: Seq<Sexp>,
    n: int,
    st: State,
    depth: nat,
    log: Seq<Event>,
)
    requires
        n <= a.len(),
        n <= b.len(),
        forall|i: int| 0 <= i < n ==> a[i] == b[i],
    ensures
        eval_list_spec(a, n, st, depth, log) == eval_list_spec(b, n, st, depth, log),
    decreases n,
{
    if n > 0 {
        lemma_list_only_first(a, b, n - 1, st, depth, log);
    }
}

} // verus!
