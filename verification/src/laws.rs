//! What holds of every program: facts about the meaning of expressions,
//! each stated as a proof.

use crate::host::Event;
use crate::number::{float_sum, is_zero, truncate_index};
use crate::parser::{param_names, tokens_of};
use crate::primitives::{
    apply_spec, arith, chain_holds, fold_numbers, pair_holds, standard_scope,
};
use crate::risp_type::{
    bind, lookup, lookup_in, position, put, render, Expected, Failure, Primitive, Scope, Sexp,
};
use crate::semantics::{
    at, call_spec, closure_spec, eval_list_spec, eval_spec, fail, form_of, form_spec, frame_spec,
    if_spec, let_spec, load_spec, read_all, run_spec, special_form, Form, State, Stop,
};
use vstd::prelude::*;

verus! {

/// Whether a function is one of the five comparisons.
pub open spec fn is_comparison(p: Primitive) -> bool {
    p == Primitive::Equal || p == Primitive::Greater || p == Primitive::Less || p
        == Primitive::GreaterEqual || p == Primitive::LessEqual
}

/// The numbers of a sequence as values of the language.
pub open spec fn numbers(bits: Seq<u64>) -> Seq<Sexp> {
    Seq::new(bits.len(), |i: int| Sexp::Number(bits[i]))
}

/// Addition, subtraction and multiplication of one number or more give the
/// numbers combined from the left: the first number alone, and with every
/// further number the result so far combined with it.
pub proof fn law_arithmetic_folds_from_the_left(p: Primitive, bits: Seq<u64>, last: u64)
    requires
        p == Primitive::Add || p == Primitive::Subtract || p == Primitive::Multiply,
        bits.len() > 0,
    ensures
        apply_spec(p, numbers(bits)) == Ok::<Sexp, Failure>(
            Sexp::Number(fold_numbers(p, numbers(bits), bits.len() as int)),
        ),
        fold_numbers(p, numbers(bits), 1) == bits[0],
        fold_numbers(p, numbers(bits.push(last)), bits.len() as int + 1) == arith(
            p,
            fold_numbers(p, numbers(bits), bits.len() as int),
            last,
        ),
{
    lemma_fold_ignores_later(p, numbers(bits), numbers(bits.push(last)), bits.len() as int);
}

/// The sum of numbers is the sum of all but the last, plus the last.
pub proof fn law_sum_extends(bits: Seq<u64>, last: u64)
    requires
        bits.len() > 0,
    ensures
        apply_spec(Primitive::Add, numbers(bits.push(last))) == Ok::<Sexp, Failure>(
            Sexp::Number(
                float_sum(fold_numbers(Primitive::Add, numbers(bits), bits.len() as int), last),
            ),
        ),
{
    law_arithmetic_folds_from_the_left(Primitive::Add, bits, last);
    law_arithmetic_folds_from_the_left(Primitive::Add, bits.push(last), last);
}

/// What the first `n` numbers combine to does not depend on the numbers
/// after them.
pub proof fn lemma_fold_ignores_later(p: Primitive, a: Seq<Sexp>, b: Seq<Sexp>, n: int)
    requires
        0 < n <= a.len(),
        n <= b.len(),
        forall|i: int| 0 <= i < n ==> a[i] == b[i],
    ensures
        fold_numbers(p, a, n) == fold_numbers(p, b, n),
    decreases n,
{
    if n > 1 {
        lemma_fold_ignores_later(p, a, b, n - 1);
    }
}

/// Division rejects a first number that is zero, whatever follows it.
pub proof fn law_division_rejects_zero(bits: Seq<u64>)
    requires
        bits.len() > 0,
        is_zero(bits[0]),
    ensures
        apply_spec(Primitive::Divide, numbers(bits)) == Err::<Sexp, Failure>(
            Failure::DivisionByZero,
        ),
{
}

/// A comparison of a single number holds.
pub proof fn law_single_comparison_holds(p: Primitive, x: u64)
    requires
        is_comparison(p),
    ensures
        apply_spec(p, seq![Sexp::Number(x)]) == Ok::<Sexp, Failure>(Sexp::Bool(true)),
{
    assert(chain_holds(p, seq![Sexp::Number(x)]));
}

/// A comparison of several numbers holds exactly where it holds between
/// each number and the next.
pub proof fn law_comparison_chains(p: Primitive, bits: Seq<u64>)
    requires
        is_comparison(p),
        bits.len() > 0,
    ensures
        apply_spec(p, numbers(bits)) == Ok::<Sexp, Failure>(
            Sexp::Bool(
                forall|i: int|
                    0 <= i < bits.len() - 1 ==> crate::primitives::relation(
                        p,
                        #[trigger] bits[i],
                        bits[i + 1],
                    ),
            ),
        ),
{
    let vals = numbers(bits);
    assert forall|i: int| 0 <= i < vals.len() - 1 implies (#[trigger] pair_holds(p, vals, i)
        == crate::primitives::relation(p, bits[i], bits[i + 1])) by {}
    if chain_holds(p, vals) {
        assert forall|i: int| 0 <= i < bits.len() - 1 implies crate::primitives::relation(
            p,
            #[trigger] bits[i],
            bits[i + 1],
        ) by {
            assert(pair_holds(p, vals, i));
        }
    }
}

/// `cdr` of a list of one item is `Nil`.
pub proof fn law_cdr_of_single(item: Sexp)
    ensures
        apply_spec(Primitive::Cdr, seq![Sexp::List(seq![item])]) == Ok::<Sexp, Failure>(
            Sexp::Nil,
        ),
{
}

/// `car` of the empty list fails.
pub proof fn law_car_of_empty()
    ensures
        apply_spec(Primitive::Car, seq![Sexp::List(Seq::empty())]) == Err::<Sexp, Failure>(
            Failure::TypeMismatch(Expected::NonEmptyList),
        ),
{
}

/// `nth` of a number and a list never fails: it gives the item at the
/// number's integer part, and `Nil` where the list ends before it.
pub proof fn law_nth_never_fails(index: u64, items: Seq<Sexp>)
    ensures
        apply_spec(Primitive::Nth, seq![Sexp::Number(index), Sexp::List(items)]) is Ok,
        truncate_index(index) >= items.len() ==> apply_spec(
            Primitive::Nth,
            seq![Sexp::Number(index), Sexp::List(items)],
        ) == Ok::<Sexp, Failure>(Sexp::Nil),
        truncate_index(index) < items.len() ==> apply_spec(
            Primitive::Nth,
            seq![Sexp::Number(index), Sexp::List(items)],
        ) == Ok::<Sexp, Failure>(items[truncate_index(index) as int]),
{
}

/// Where a name stands in a scope, it stands after a binding of any name;
/// a name that is new to the scope stands at its end afterwards.
pub proof fn lemma_position_after_put(
    scope: Scope,
    name: Seq<char>,
    value: Sexp,
    other: Seq<char>,
    from: int,
)
    requires
        0 <= from <= scope.len(),
    ensures
        other != name ==> position(put(scope, name, value), other, from) == position(
            scope,
            other,
            from,
        ),
        position(scope, name, 0) is Some ==> position(put(scope, name, value), name, from)
            == position(scope, name, from),
        position(scope, name, 0) is None ==> position(put(scope, name, value), name, from)
            == Some(scope.len() as int),
    decreases scope.len() - from,
{
    let after = put(scope, name, value);
    lemma_position_none(scope, name, 0);
    if from < scope.len() {
        lemma_position_after_put(scope, name, value, other, from + 1);
        assert(after[from].0 == scope[from].0);
    } else {
        if position(scope, name, 0) is None {
            assert(after[from].0 == name);
        }
    }
}

/// A name that has been bound means the value that it was bound to.
pub proof fn law_bound_name_is_found(env: Seq<Scope>, name: Seq<char>, value: Sexp)
    requires
        env.len() > 0,
    ensures
        lookup(bind(env, name, value), name) == Some(value),
{
    lemma_position_after_put(env[0], name, value, name, 0);
    lemma_position_none(env[0], name, 0);
}

/// Binding a name changes the meaning of no other name.
pub proof fn law_binding_leaves_other_names(
    env: Seq<Scope>,
    name: Seq<char>,
    value: Sexp,
    other: Seq<char>,
)
    requires
        env.len() > 0,
        other != name,
    ensures
        lookup(bind(env, name, value), other) == lookup(env, other),
{
    lemma_position_after_put(env[0], name, value, other, 0);
    lemma_position_none(env[0], other, 0);
    lemma_position_none(env[0], name, 0);
    match position(env[0], other, 0) {
        Some(i) => {
            assert(put(env[0], name, value)[i] == env[0][i]);
        },
        None => {},
    }
    assert(bind(env, name, value).drop_first() =~= env.drop_first());
}

/// A name that is bound in an inner scope hides the same name in the scopes
/// around it and removes it from none of them: inside, the name means what
/// the inner scope binds it to, and the scopes around are as they were.
pub proof fn law_inner_binding_hides(
    inner: Scope,
    outer: Seq<Scope>,
    name: Seq<char>,
    value: Sexp,
)
    ensures
        lookup(bind(seq![inner] + outer, name, value), name) == Some(value),
        bind(seq![inner] + outer, name, value).drop_first() == outer,
{
    law_bound_name_is_found(seq![inner] + outer, name, value);
    assert(bind(seq![inner] + outer, name, value).drop_first() =~= outer);
}

/// Whether no scope of a chain binds a name.
pub open spec fn unbound(env: Seq<Scope>, name: Seq<char>) -> bool {
    forall|i: int, j: int|
        0 <= i < env.len() && 0 <= j < env[i].len() ==> (#[trigger] env[i][j]).0 != name
}

/// A scope gives a name no value exactly where none of its pairs holds it.
pub proof fn lemma_position_none(scope: Scope, name: Seq<char>, from: int)
    requires
        0 <= from,
    ensures
        position(scope, name, from) is None <==> (forall|j: int|
            from <= j < scope.len() ==> (#[trigger] scope[j]).0 != name),
        position(scope, name, from) matches Some(i) ==> from <= i < scope.len() && scope[i].0
            == name,
    decreases scope.len() - from,
{
    if from < scope.len() {
        lemma_position_none(scope, name, from + 1);
        if scope[from].0 != name && position(scope, name, from + 1) is None {
            assert forall|j: int| from <= j < scope.len() implies (#[trigger] scope[j]).0
                != name by {
                if j > from {
                }
            }
        }
    }
}

/// A chain gives a name no value exactly where none of its scopes binds it.
pub proof fn lemma_lookup_none(env: Seq<Scope>, name: Seq<char>)
    ensures
        lookup(env, name) is None <==> unbound(env, name),
    decreases env.len(),
{
    if env.len() > 0 {
        let rest = env.drop_first();
        lemma_lookup_none(rest, name);
        lemma_position_none(env[0], name, 0);
        if unbound(env, name) {
            assert forall|i: int, j: int| 0 <= i < rest.len() && 0 <= j < rest[i].len() implies (
            #[trigger] rest[i][j]).0 != name by {
                assert(rest[i] == env[i + 1]);
                assert(env[i + 1][j].0 != name);
            }
            assert forall|j: int| 0 <= j < env[0].len() implies (#[trigger] env[0][j]).0
                != name by {}
        } else {
            if lookup_in(env[0], name) is None && unbound(rest, name) {
                assert forall|i: int, j: int| 0 <= i < env.len() && 0 <= j < env[i].len() implies (
                #[trigger] env[i][j]).0 != name by {
                    if i > 0 {
                        assert(env[i] == rest[i - 1]);
                        assert(rest[i - 1][j].0 != name);
                    }
                }
            }
        }
    }
}

/// A symbol that no scope of the chain binds fails as unbound, however many
/// scopes the chain has and however deep the evaluation may go.
pub proof fn law_unbound_symbol_fails(name: Seq<char>, st: State, depth: nat, log: Seq<Event>)
    requires
        unbound(st.env, name),
    ensures
        eval_spec(Sexp::Symbol(name), st, depth, log) == fail(Failure::UnboundSymbol(name), st),
{
    lemma_lookup_none(st.env, name);
}

/// A closure called with another number of arguments than it has parameters
/// fails with an arity failure that names both numbers. No argument is
/// evaluated, no scope changes and nothing passes between the evaluator and
/// the host.
pub proof fn law_closure_arity(
    params: Sexp,
    body: Seq<Sexp>,
    args: Seq<Sexp>,
    st: State,
    depth: nat,
    log: Seq<Event>,
)
    requires
        param_names(params) is Ok,
        param_names(params)->Ok_0.len() != args.len(),
    ensures
        closure_spec(params, body, args, st, depth, log) == fail(
            Failure::Arity { expected: param_names(params)->Ok_0.len(), actual: args.len() },
            st,
        ),
{
}

/// The same of a whole call: where the head of a call means a closure, the
/// call fails with the arity failure when the numbers differ, in the state
/// that the evaluation of the head left.
pub proof fn law_call_arity(
    head: Sexp,
    params: Sexp,
    body: Seq<Sexp>,
    args: Seq<Sexp>,
    st: State,
    depth: nat,
    log: Seq<Event>,
)
    requires
        special_form(head) is None,
        eval_spec(head, st, depth, log).0 == Ok::<Sexp, Stop>(
            Sexp::Lambda(Box::new(params), body),
        ),
        param_names(params) is Ok,
        param_names(params)->Ok_0.len() != args.len(),
    ensures
        call_spec(head, args, st, depth, log) == fail(
            Failure::Arity { expected: param_names(params)->Ok_0.len(), actual: args.len() },
            eval_spec(head, st, depth, log).1,
        ),
{
    law_closure_arity(params, body, args, eval_spec(head, st, depth, log).1, depth, log);
}

/// Whether two chains have the same scopes around their innermost ones.
pub open spec fn same_outer(before: Seq<Scope>, after: Seq<Scope>) -> bool {
    after.len() == before.len() && after.drop_first() == before.drop_first()
}

/// Evaluating an expression changes no scope but the innermost.
pub proof fn lemma_eval_keeps_outer(exp: Sexp, st: State, depth: nat, log: Seq<Event>)
    requires
        st.env.len() > 0,
    ensures
        same_outer(st.env, eval_spec(exp, st, depth, log).1.env),
    decreases depth, 0nat, 0nat,
{
    match exp {
        Sexp::List(items) => {
            if items.len() > 0 && depth > 0 {
                lemma_call_keeps_outer(items[0], items.drop_first(), st, (depth - 1) as nat, log);
            }
        },
        _ => {},
    }
}

/// Evaluating several expressions changes no scope but the innermost.
pub proof fn lemma_list_keeps_outer(
    items: Seq<Sexp>,
    n: int,
    st: State,
    depth: nat,
    log: Seq<Event>,
)
    requires
        st.env.len() > 0,
    ensures
        same_outer(st.env, eval_list_spec(items, n, st, depth, log).1.env),
    decreases depth, 1nat, n,
{
    if n > 0 {
        lemma_list_keeps_outer(items, n - 1, st, depth, log);
        let (before, st1) = eval_list_spec(items, n - 1, st, depth, log);
        if before is Ok {
            lemma_eval_keeps_outer(items[n - 1], st1, depth, log);
        }
    }
}

proof fn lemma_if_keeps_outer(args: Seq<Sexp>, st: State, depth: nat, log: Seq<Event>)
    requires
        st.env.len() > 0,
    ensures
        same_outer(st.env, if_spec(args, st, depth, log).1.env),
    decreases depth, 2nat, 0nat,
{
    if args.len() > 0 {
        lemma_eval_keeps_outer(args[0], st, depth, log);
        let (cond, st1) = eval_spec(args[0], st, depth, log);
        match cond {
            Ok(Sexp::Bool(b)) => {
                let idx: int = if b {
                    1
                } else {
                    2
                };
                if idx < args.len() {
                    lemma_eval_keeps_outer(args[idx], st1, depth, log);
                }
            },
            _ => {},
        }
    }
}

proof fn lemma_let_keeps_outer(args: Seq<Sexp>, st: State, depth: nat, log: Seq<Event>)
    requires
        st.env.len() > 0,
    ensures
        same_outer(st.env, let_spec(args, st, depth, log).1.env),
    decreases depth, 2nat, 0nat,
{
    if args.len() == 2 {
        match args[0] {
            Sexp::Symbol(name) => {
                lemma_eval_keeps_outer(args[1], st, depth, log);
                let (value, st1) = eval_spec(args[1], st, depth, log);
                match value {
                    Ok(v) => {
                        assert(bind(st1.env, name, v).drop_first() =~= st1.env.drop_first());
                    },
                    Err(_) => {},
                }
            },
            _ => {},
        }
    }
}

proof fn lemma_run_keeps_outer(tokens: Seq<Seq<char>>, st: State, depth: nat, log: Seq<Event>)
    requires
        st.env.len() > 0,
    ensures
        same_outer(st.env, run_spec(tokens, st, depth, log).1.env),
    decreases depth, 2nat, 0nat,
{
    let forms = read_all(tokens, 0).0;
    lemma_list_keeps_outer(forms, forms.len() as int, st, depth, log);
}

proof fn lemma_load_keeps_outer(args: Seq<Sexp>, st: State, depth: nat, log: Seq<Event>)
    requires
        st.env.len() > 0,
    ensures
        same_outer(st.env, load_spec(args, st, depth, log).1.env),
    decreases depth, 3nat, 0nat,
{
    if args.len() > 0 && 0 <= st.pos < log.len() {
        match log[st.pos] {
            Event::Read(path, answer) => {
                match answer {
                    Ok(text) => {
                        lemma_run_keeps_outer(tokens_of(text), at(st.env, st.pos + 1), depth, log);
                    },
                    Err(_) => {},
                }
            },
            Event::Write(_) => {},
        }
    }
}

proof fn lemma_form_keeps_outer(
    form: Form,
    args: Seq<Sexp>,
    st: State,
    depth: nat,
    log: Seq<Event>,
)
    requires
        st.env.len() > 0,
    ensures
        same_outer(st.env, form_spec(form, args, st, depth, log).1.env),
    decreases depth, 4nat, 0nat,
{
    match form {
        Form::If => lemma_if_keeps_outer(args, st, depth, log),
        Form::Let => lemma_let_keeps_outer(args, st, depth, log),
        Form::Load => lemma_load_keeps_outer(args, st, depth, log),
        _ => {},
    }
}

proof fn lemma_frame_keeps_outer(
    params: Sexp,
    args: Seq<Sexp>,
    st: State,
    depth: nat,
    log: Seq<Event>,
)
    requires
        st.env.len() > 0,
    ensures
        same_outer(st.env, frame_spec(params, args, st, depth, log).1.env),
    decreases depth, 2nat, 0nat,
{
    match param_names(params) {
        Ok(names) => {
            if names.len() == args.len() {
                lemma_list_keeps_outer(args, args.len() as int, st, depth, log);
            }
        },
        Err(_) => {},
    }
}

proof fn lemma_closure_keeps_outer(
    params: Sexp,
    body: Seq<Sexp>,
    args: Seq<Sexp>,
    st: State,
    depth: nat,
    log: Seq<Event>,
)
    requires
        st.env.len() > 0,
    ensures
        same_outer(st.env, closure_spec(params, body, args, st, depth, log).1.env),
    decreases depth, 3nat, 0nat,
{
    lemma_frame_keeps_outer(params, args, st, depth, log);
}

proof fn lemma_call_keeps_outer(
    head: Sexp,
    args: Seq<Sexp>,
    st: State,
    depth: nat,
    log: Seq<Event>,
)
    requires
        st.env.len() > 0,
    ensures
        same_outer(st.env, call_spec(head, args, st, depth, log).1.env),
    decreases depth, 5nat, 0nat,
{
    match special_form(head) {
        Some(form) => lemma_form_keeps_outer(form, args, st, depth, log),
        None => {
            lemma_eval_keeps_outer(head, st, depth, log);
            let (callee, st1) = eval_spec(head, st, depth, log);
            match callee {
                Ok(Sexp::Func(p)) => {
                    lemma_list_keeps_outer(args, args.len() as int, st1, depth, log);
                },
                Ok(Sexp::Lambda(params, body)) => {
                    lemma_closure_keeps_outer(*params, body, args, st1, depth, log);
                },
                _ => {},
            }
        },
    }
}

/// Whatever the body of a call binds, it binds in the scope of the call:
/// when the body has run in the scope `local` inside the chain `caller`, the
/// scopes under the call's own are `caller`, unchanged.
pub proof fn law_body_keeps_caller_scopes(
    body: Seq<Sexp>,
    local: Scope,
    caller: Seq<Scope>,
    pos: int,
    depth: nat,
    log: Seq<Event>,
)
    ensures
        eval_list_spec(
            body,
            body.len() as int,
            at(seq![local] + caller, pos),
            depth,
            log,
        ).1.env.drop_first() == caller,
{
    lemma_list_keeps_outer(body, body.len() as int, at(seq![local] + caller, pos), depth, log);
    assert((seq![local] + caller).drop_first() =~= caller);
}

/// After a call of a closure the caller's chain is the one that the
/// evaluation of the arguments left: a name that the body bound means
/// afterwards what it meant before the body ran.
pub proof fn law_call_restores_scopes(
    params: Sexp,
    body: Seq<Sexp>,
    args: Seq<Sexp>,
    st: State,
    depth: nat,
    log: Seq<Event>,
    name: Seq<char>,
)
    ensures
        closure_spec(params, body, args, st, depth, log).1.env == frame_spec(
            params,
            args,
            st,
            depth,
            log,
        ).1.env,
        lookup(closure_spec(params, body, args, st, depth, log).1.env, name) == lookup(
            frame_spec(params, args, st, depth, log).1.env,
            name,
        ),
{
}

/// Expressions that are numbers evaluate to themselves and change nothing.
pub proof fn lemma_numbers_evaluate(
    bits: Seq<u64>,
    n: int,
    st: State,
    depth: nat,
    log: Seq<Event>,
)
    requires
        0 <= n <= bits.len(),
    ensures
        eval_list_spec(numbers(bits), n, st, depth, log) == (
            Ok::<Seq<Sexp>, Stop>(numbers(bits).take(n)),
            st,
        ),
    decreases n,
{
    let items = numbers(bits);
    if n > 0 {
        lemma_numbers_evaluate(bits, n - 1, st, depth, log);
        assert(items[n - 1] == Sexp::Number(bits[n - 1]));
        assert(eval_spec(items[n - 1], st, depth, log) == (Ok::<Sexp, Stop>(items[n - 1]), st));
        assert(items.take(n - 1).push(items[n - 1]) =~= items.take(n));
    } else {
        assert(items.take(0) =~= Seq::<Sexp>::empty());
    }
}

/// A call of a name that is bound to a built-in function, with numbers as
/// its arguments, gives what the function gives for the numbers. It changes
/// no scope, and nothing passes between the evaluator and the host.
pub proof fn law_call_of_builtin_on_numbers(
    name: Seq<char>,
    p: Primitive,
    bits: Seq<u64>,
    st: State,
    depth: nat,
    log: Seq<Event>,
)
    requires
        form_of(name) is None,
        lookup(st.env, name) == Some(Sexp::Func(p)),
        depth > 0,
    ensures
        eval_spec(Sexp::List(seq![Sexp::Symbol(name)] + numbers(bits)), st, depth, log) == (
            match apply_spec(p, numbers(bits)) {
                Ok(v) => Ok::<Sexp, Stop>(v),
                Err(f) => Err::<Sexp, Stop>(Stop::Fail(f)),
            },
            st,
        ),
{
    let items = seq![Sexp::Symbol(name)] + numbers(bits);
    let d = (depth - 1) as nat;
    assert(items.drop_first() =~= numbers(bits));
    assert(items[0] == Sexp::Symbol(name));
    lemma_numbers_evaluate(bits, bits.len() as int, st, d, log);
    assert(numbers(bits).take(bits.len() as int) =~= numbers(bits));
    assert(eval_spec(Sexp::Symbol(name), st, d, log) == (Ok::<Sexp, Stop>(Sexp::Func(p)), st));
    assert(call_spec(Sexp::Symbol(name), numbers(bits), st, d, log) == (
        match apply_spec(p, numbers(bits)) {
            Ok(v) => Ok::<Sexp, Stop>(v),
            Err(f) => Err::<Sexp, Stop>(Stop::Fail(f)),
        },
        st,
    ));
}

/// The names `+` and `/` are reserved for no form, and the root scope binds
/// them to addition and to division.
pub proof fn lemma_root_scope_arithmetic()
    ensures
        form_of("+"@) is None,
        form_of("/"@) is None,
        lookup(seq![standard_scope()], "+"@) == Some(Sexp::Func(Primitive::Add)),
        lookup(seq![standard_scope()], "/"@) == Some(Sexp::Func(Primitive::Divide)),
{
    reveal_strlit("+");
    reveal_strlit("-");
    reveal_strlit("*");
    reveal_strlit("/");
    reveal_strlit("if");
    reveal_strlit("let");
    reveal_strlit("fn");
    reveal_strlit("load");
    reveal_strlit("env");
    reveal_strlit("print");
    assert("+"@[0] != "/"@[0]);
    assert("/"@[0] != "-"@[0]);
    assert("/"@[0] != "*"@[0]);
    let scope = standard_scope();
    assert(scope[0].0 == "+"@ && scope[1].0 == "-"@ && scope[2].0 == "*"@ && scope[3].0 == "/"@);
    assert(position(scope, "/"@, 0) == Some(3int)) by {
        reveal_with_fuel(position, 5);
    }
    assert(position(scope, "+"@, 0) == Some(0int));
}

/// In the root scope `(+ a1 .. an)` means the sum of its numbers, combined
/// from the left.
pub proof fn law_sum_in_root_scope(bits: Seq<u64>, pos: int, depth: nat, log: Seq<Event>)
    requires
        bits.len() > 0,
        depth > 0,
    ensures
        eval_spec(
            Sexp::List(seq![Sexp::Symbol("+"@)] + numbers(bits)),
            at(seq![standard_scope()], pos),
            depth,
            log,
        ) == (
            Ok::<Sexp, Stop>(
                Sexp::Number(fold_numbers(Primitive::Add, numbers(bits), bits.len() as int)),
            ),
            at(seq![standard_scope()], pos),
        ),
{
    lemma_root_scope_arithmetic();
    law_call_of_builtin_on_numbers(
        "+"@,
        Primitive::Add,
        bits,
        at(seq![standard_scope()], pos),
        depth,
        log,
    );
}

/// In the root scope `(/ a1 .. an)` fails where `a1` is zero, whatever
/// follows it.
pub proof fn law_division_by_zero_in_root_scope(
    bits: Seq<u64>,
    pos: int,
    depth: nat,
    log: Seq<Event>,
)
    requires
        bits.len() > 0,
        is_zero(bits[0]),
        depth > 0,
    ensures
        eval_spec(
            Sexp::List(seq![Sexp::Symbol("/"@)] + numbers(bits)),
            at(seq![standard_scope()], pos),
            depth,
            log,
        ) == fail(Failure::DivisionByZero, at(seq![standard_scope()], pos)),
{
    lemma_root_scope_arithmetic();
    law_call_of_builtin_on_numbers(
        "/"@,
        Primitive::Divide,
        bits,
        at(seq![standard_scope()], pos),
        depth,
        log,
    );
}

/// Whether an evaluation did not run into the limit on nesting.
pub open spec fn within_depth<T>(result: Result<T, Stop>) -> bool {
    result != Err::<T, Stop>(Stop::Fail(Failure::DepthExceeded))
}

/// The limit on nesting changes nothing but where evaluation gives up: an
/// expression that is evaluated without running into the limit means the
/// same under every higher limit.
pub proof fn law_depth_only_limits(exp: Sexp, st: State, depth: nat, more: nat, log: Seq<Event>)
    requires
        depth <= more,
        within_depth(eval_spec(exp, st, depth, log).0),
    ensures
        eval_spec(exp, st, more, log) == eval_spec(exp, st, depth, log),
    decreases depth, 0nat, 0nat,
{
    match exp {
        Sexp::List(items) => {
            if items.len() > 0 && depth > 0 {
                lemma_call_deeper(
                    items[0],
                    items.drop_first(),
                    st,
                    (depth - 1) as nat,
                    (more - 1) as nat,
                    log,
                );
            }
        },
        _ => {},
    }
}

/// The same of several expressions.
pub proof fn lemma_list_deeper(
    items: Seq<Sexp>,
    n: int,
    st: State,
    depth: nat,
    more: nat,
    log: Seq<Event>,
)
    requires
        depth <= more,
        within_depth(eval_list_spec(items, n, st, depth, log).0),
    ensures
        eval_list_spec(items, n, st, more, log) == eval_list_spec(items, n, st, depth, log),
    decreases depth, 1nat, n,
{
    if n > 0 {
        lemma_list_deeper(items, n - 1, st, depth, more, log);
        let (before, st1) = eval_list_spec(items, n - 1, st, depth, log);
        if before is Ok {
            law_depth_only_limits(items[n - 1], st1, depth, more, log);
        }
    }
}

proof fn lemma_if_deeper(args: Seq<Sexp>, st: State, depth: nat, more: nat, log: Seq<Event>)
    requires
        depth <= more,
        within_depth(if_spec(args, st, depth, log).0),
    ensures
        if_spec(args, st, more, log) == if_spec(args, st, depth, log),
    decreases depth, 2nat, 0nat,
{
    if args.len() > 0 {
        law_depth_only_limits(args[0], st, depth, more, log);
        let (cond, st1) = eval_spec(args[0], st, depth, log);
        match cond {
            Ok(Sexp::Bool(b)) => {
                let idx: int = if b {
                    1
                } else {
                    2
                };
                if idx < args.len() {
                    law_depth_only_limits(args[idx], st1, depth, more, log);
                }
            },
            _ => {},
        }
    }
}

proof fn lemma_let_deeper(args: Seq<Sexp>, st: State, depth: nat, more: nat, log: Seq<Event>)
    requires
        depth <= more,
        within_depth(let_spec(args, st, depth, log).0),
    ensures
        let_spec(args, st, more, log) == let_spec(args, st, depth, log),
    decreases depth, 2nat, 0nat,
{
    if args.len() == 2 {
        match args[0] {
            Sexp::Symbol(_) => {
                law_depth_only_limits(args[1], st, depth, more, log);
            },
            _ => {},
        }
    }
}

/// The same of a text.
pub proof fn lemma_run_deeper(
    tokens: Seq<Seq<char>>,
    st: State,
    depth: nat,
    more: nat,
    log: Seq<Event>,
)
    requires
        depth <= more,
        within_depth(run_spec(tokens, st, depth, log).0),
    ensures
        run_spec(tokens, st, more, log) == run_spec(tokens, st, depth, log),
    decreases depth, 2nat, 0nat,
{
    let forms = read_all(tokens, 0).0;
    lemma_list_deeper(forms, forms.len() as int, st, depth, more, log);
}

proof fn lemma_load_deeper(args: Seq<Sexp>, st: State, depth: nat, more: nat, log: Seq<Event>)
    requires
        depth <= more,
        within_depth(load_spec(args, st, depth, log).0),
    ensures
        load_spec(args, st, more, log) == load_spec(args, st, depth, log),
    decreases depth, 3nat, 0nat,
{
    if args.len() > 0 && 0 <= st.pos < log.len() {
        match log[st.pos] {
            Event::Read(path, answer) => {
                match answer {
                    Ok(text) => {
                        if path == render(args[0]) {
                            lemma_run_deeper(
                                tokens_of(text),
                                at(st.env, st.pos + 1),
                                depth,
                                more,
                                log,
                            );
                        }
                    },
                    Err(_) => {},
                }
            },
            Event::Write(_) => {},
        }
    }
}

proof fn lemma_form_deeper(
    form: Form,
    args: Seq<Sexp>,
    st: State,
    depth: nat,
    more: nat,
    log: Seq<Event>,
)
    requires
        depth <= more,
        within_depth(form_spec(form, args, st, depth, log).0),
    ensures
        form_spec(form, args, st, more, log) == form_spec(form, args, st, depth, log),
    decreases depth, 4nat, 0nat,
{
    match form {
        Form::If => lemma_if_deeper(args, st, depth, more, log),
        Form::Let => lemma_let_deeper(args, st, depth, more, log),
        Form::Load => lemma_load_deeper(args, st, depth, more, log),
        _ => {},
    }
}

proof fn lemma_frame_deeper(
    params: Sexp,
    args: Seq<Sexp>,
    st: State,
    depth: nat,
    more: nat,
    log: Seq<Event>,
)
    requires
        depth <= more,
        within_depth(frame_spec(params, args, st, depth, log).0),
    ensures
        frame_spec(params, args, st, more, log) == frame_spec(params, args, st, depth, log),
    decreases depth, 2nat, 0nat,
{
    match param_names(params) {
        Ok(names) => {
            if names.len() == args.len() {
                lemma_list_deeper(args, args.len() as int, st, depth, more, log);
            }
        },
        Err(_) => {},
    }
}

proof fn lemma_closure_deeper(
    params: Sexp,
    body: Seq<Sexp>,
    args: Seq<Sexp>,
    st: State,
    depth: nat,
    more: nat,
    log: Seq<Event>,
)
    requires
        depth <= more,
        within_depth(closure_spec(params, body, args, st, depth, log).0),
    ensures
        closure_spec(params, body, args, st, more, log) == closure_spec(
            params,
            body,
            args,
            st,
            depth,
            log,
        ),
    decreases depth, 3nat, 0nat,
{
    lemma_frame_deeper(params, args, st, depth, more, log);
    let (scope, st1) = frame_spec(params, args, st, depth, log);
    match scope {
        Ok(local) => {
            lemma_list_deeper(
                body,
                body.len() as int,
                at(seq![local] + st1.env, st1.pos),
                depth,
                more,
                log,
            );
        },
        Err(_) => {},
    }
}

proof fn lemma_call_deeper(
    head: Sexp,
    args: Seq<Sexp>,
    st: State,
    depth: nat,
    more: nat,
    log: Seq<Event>,
)
    requires
        depth <= more,
        within_depth(call_spec(head, args, st, depth, log).0),
    ensures
        call_spec(head, args, st, more, log) == call_spec(head, args, st, depth, log),
    decreases depth, 5nat, 0nat,
{
    match special_form(head) {
        Some(form) => lemma_form_deeper(form, args, st, depth, more, log),
        None => {
            law_depth_only_limits(head, st, depth, more, log);
            let (callee, st1) = eval_spec(head, st, depth, log);
            match callee {
                Ok(Sexp::Func(p)) => {
                    lemma_list_deeper(args, args.len() as int, st1, depth, more, log);
                },
                Ok(Sexp::Lambda(params, body)) => {
                    lemma_closure_deeper(*params, body, args, st1, depth, more, log);
                },
                _ => {},
            }
        },
    }
}

} // verus!
