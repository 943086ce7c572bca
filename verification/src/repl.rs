//! From a text to the value of its last expression.

use crate::eval::{agrees, eval};
use crate::extension::{lemma_list_extends, lemma_list_only_first, lemma_list_sticks};
use crate::host::{lemma_prefix_of_prefix, lemma_prefix_of_push, Event, Host, Session};
use crate::parser::{parse_at, texts, tokenize, tokens_of};
use crate::risp_type::{Failure, RispEnv, RispResult, Sexp};
use crate::semantics::{at, eval_list_spec, read_all, run_spec, Stop};
use vstd::prelude::*;

verus! {

/// The expressions `done`, and then what is read as `rest` says.
pub open spec fn joined(done: Seq<Sexp>, rest: (Seq<Sexp>, Option<Failure>)) -> (
    Seq<Sexp>,
    Option<Failure>,
) {
    (done + rest.0, rest.1)
}

/// Reads a text and evaluates its expressions one after the other in one
/// chain of scopes. Gives the value of the last one, or the first failure.
/// A text without a token fails, as a text that cannot be read does.
#[verifier::loop_isolation(false)]
pub fn parse_eval<H: Host>(
    exp: String,
    env: &mut RispEnv,
    session: &mut Session<H>,
    depth: usize,
) -> (r: RispResult)
    ensures
        old(session)@.is_prefix_of(final(session)@),
        final(env).outer == old(env).outer,
        agrees(
            r,
            final(env)@,
            final(session)@.len() as int,
            run_spec(
                tokens_of(exp@),
                at(old(env)@, old(session)@.len() as int),
                depth as nat,
                final(session)@,
            ),
        ),
    decreases depth, 2nat, 0nat,
{
    let tokens = tokenize(exp);
    let ghost all = texts(tokens@);
    let ghost start = session@;
    let ghost st = at(env@, start.len() as int);
    let ghost outer = env.outer;
    let ghost forms = read_all(all, 0).0;
    let ghost mut done: Seq<Sexp> = Seq::empty();
    let ghost mut values: Seq<Sexp> = Seq::empty();
    let mut pos: usize = 0;
    proof {
        lemma_prefix_of_push(start, Event::Write(Seq::empty()));
        assert(done + read_all(all, 0).0 =~= read_all(all, 0).0);
    }
    loop
        invariant
            pos <= tokens@.len(),
            all == texts(tokens@),
            env.outer == outer,
            start.is_prefix_of(session@),
            read_all(all, 0) == joined(done, read_all(all, pos as int)),
            values.len() == done.len(),
            eval_list_spec(done, done.len() as int, st, depth as nat, session@) == (
                Ok::<Seq<Sexp>, Stop>(values),
                at(env@, session@.len() as int),
            ),
        decreases tokens@.len() - pos,
    {
        let (parsed_exp, next) = match parse_at(tokens.as_slice(), pos) {
            Ok(found) => found,
            Err(e) => {
                proof {
                    assert(done + Seq::<Sexp>::empty() =~= done);
                }
                return Err(e);
            },
        };
        let ghost before = session@;
        let ghost read = done.push(parsed_exp@);
        let r = eval(&parsed_exp, env, session, depth);
        proof {
            let rest = read_all(all, next as int).0;
            if next >= tokens.len() {
                assert(done + seq![parsed_exp@] =~= read);
                assert(forms == read);
            } else {
                assert(done + (seq![parsed_exp@] + rest) =~= read + rest);
                assert(forms == read + rest);
            }
            lemma_list_extends(done, done.len() as int, st, depth as nat, before, session@);
            lemma_prefix_of_prefix(start, before, session@);
            lemma_list_only_first(read, done, done.len() as int, st, depth as nat, session@);
            lemma_list_only_first(forms, read, read.len() as int, st, depth as nat, session@);
            if r is Err {
                lemma_list_sticks(
                    forms,
                    read.len() as int,
                    forms.len() as int,
                    st,
                    depth as nat,
                    session@,
                );
            }
        }
        if next >= tokens.len() {
            return r;
        }
        match r {
            Ok(v) => {
                proof {
                    done = read;
                    values = values.push(v@);
                }
            },
            Err(e) => {
                return Err(e);
            },
        }
        pos = next;
    }
}

} // verus!
