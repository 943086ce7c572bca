//! From text to tokens, and from tokens to expressions.

use crate::decimal::string_from_chars;
use crate::number::{chars_of, numeral_value, parse_number};
use crate::risp_type::{sexps, Expected, Failure, RispErr, RispExp, Sexp, SyntaxFault};
use std::rc::Rc;
use vstd::prelude::*;
use vstd::slice::slice_subrange;
use vstd::string::StrSliceExecFns;

verus! {

broadcast use vstd::std_specs::vec::group_vec_axioms;

/// Whether a character separates tokens: the characters that Unicode calls
/// white space.
pub open spec fn is_space(c: char) -> bool {
    ||| ('\u{9}' <= c && c <= '\u{D}')
    ||| c == ' '
    ||| c == '\u{85}'
    ||| c == '\u{A0}'
    ||| c == '\u{1680}'
    ||| ('\u{2000}' <= c && c <= '\u{200A}')
    ||| c == '\u{2028}'
    ||| c == '\u{2029}'
    ||| c == '\u{202F}'
    ||| c == '\u{205F}'
    ||| c == '\u{3000}'
}

/// The text from position `i` on with a space on either side of every
/// parenthesis, and with ` ( list ` in place of every quote that stands
/// directly before an opening parenthesis.
pub open spec fn spaced(s: Seq<char>, i: int) -> Seq<char>
    decreases s.len() - i,
{
    if i < 0 || i >= s.len() {
        Seq::empty()
    } else if s[i] == '\'' && i + 1 < s.len() && s[i + 1] == '(' {
        seq![' ', '(', ' ', 'l', 'i', 's', 't', ' '] + spaced(s, i + 2)
    } else if s[i] == '(' {
        seq![' ', '(', ' '] + spaced(s, i + 1)
    } else if s[i] == ')' {
        seq![' ', ')', ' '] + spaced(s, i + 1)
    } else {
        seq![s[i]] + spaced(s, i + 1)
    }
}

/// The first position at or after `i` that holds a separator, or the end.
pub open spec fn word_end(t: Seq<char>, i: int) -> int
    decreases t.len() - i,
{
    if 0 <= i < t.len() && !is_space(t[i]) {
        word_end(t, i + 1)
    } else {
        i
    }
}

pub proof fn lemma_word_end_bounds(t: Seq<char>, i: int)
    requires
        0 <= i <= t.len(),
    ensures
        i <= word_end(t, i) <= t.len(),
        i < t.len() && !is_space(t[i]) ==> i < word_end(t, i),
    decreases t.len() - i,
{
    if i < t.len() && !is_space(t[i]) {
        lemma_word_end_bounds(t, i + 1);
    }
}

/// The words of a text from position `i` on: its longest stretches without a
/// separator, in order.
pub open spec fn split_words(t: Seq<char>, i: int) -> Seq<Seq<char>>
    decreases t.len() - i,
{
    if i < 0 || i >= t.len() {
        Seq::empty()
    } else if is_space(t[i]) {
        split_words(t, i + 1)
    } else {
        proof {
            lemma_word_end_bounds(t, i);
        }
        seq![t.subrange(i, word_end(t, i))] + split_words(t, word_end(t, i))
    }
}

/// The tokens of a text.
pub open spec fn tokens_of(text: Seq<char>) -> Seq<Seq<char>> {
    split_words(spaced(text, 0), 0)
}

/// The text of each string of a sequence, in order.
pub open spec fn texts(tokens: Seq<String>) -> Seq<Seq<char>> {
    Seq::new(tokens.len(), |i: int| tokens[i]@)
}

/// Whether a character separates tokens.
fn separates(c: char) -> (r: bool)
    ensures
        r == is_space(c),
{
    ('\u{9}' <= c && c <= '\u{D}') || c == ' ' || c == '\u{85}' || c == '\u{A0}' || c
        == '\u{1680}' || ('\u{2000}' <= c && c <= '\u{200A}') || c == '\u{2028}' || c
        == '\u{2029}' || c == '\u{202F}' || c == '\u{205F}' || c == '\u{3000}'
}

/// Sets parentheses apart and writes the quoted-list shorthand out.
fn space_out(s: &Vec<char>) -> (wide: Vec<char>)
    ensures
        wide@ == spaced(s@, 0),
{
    let mut wide: Vec<char> = Vec::new();
    let mut i: usize = 0;
    while i < s.len()
        invariant
            i <= s.len(),
            wide@ + spaced(s@, i as int) == spaced(s@, 0),
        decreases s.len() - i,
    {
        let ghost before = wide@;
        let c: char = s[i];
        if c == '\'' && i + 1 < s.len() && s[i + 1] == '(' {
            wide.push(' ');
            wide.push('(');
            wide.push(' ');
            wide.push('l');
            wide.push('i');
            wide.push('s');
            wide.push('t');
            wide.push(' ');
            assert(wide@ + spaced(s@, i + 2) =~= before + spaced(s@, i as int));
            i += 2;
        } else if c == '(' || c == ')' {
            wide.push(' ');
            wide.push(c);
            wide.push(' ');
            assert(wide@ + spaced(s@, i + 1) =~= before + spaced(s@, i as int));
            i += 1;
        } else {
            wide.push(c);
            assert(wide@ + spaced(s@, i + 1) =~= before + spaced(s@, i as int));
            i += 1;
        }
    }
    assert(wide@ + spaced(s@, i as int) =~= wide@);
    wide
}

/// Splits a text at its separators.
fn split(t: &Vec<char>) -> (tokens: Vec<String>)
    ensures
        texts(tokens@) == split_words(t@, 0),
{
    let mut tokens: Vec<String> = Vec::new();
    let mut i: usize = 0;
    while i < t.len()
        invariant
            i <= t.len(),
            texts(tokens@) + split_words(t@, i as int) == split_words(t@, 0),
        decreases t.len() - i,
    {
        let ghost before = texts(tokens@);
        if separates(t[i]) {
            i += 1;
        } else {
            let mut word: Vec<char> = Vec::new();
            let mut j: usize = i;
            while j < t.len() && !separates(t[j])
                invariant
                    i <= j <= t.len(),
                    word@ == t@.subrange(i as int, j as int),
                    word_end(t@, j as int) == word_end(t@, i as int),
                decreases t.len() - j,
            {
                word.push(t[j]);
                assert(t@.subrange(i as int, j + 1) =~= t@.subrange(i as int, j as int).push(
                    t@[j as int],
                ));
                j += 1;
            }
            proof {
                lemma_word_end_bounds(t@, i as int);
            }
            tokens.push(string_from_chars(word));
            assert(texts(tokens@) =~= before.push(t@.subrange(i as int, j as int)));
            assert(texts(tokens@) + split_words(t@, j as int) =~= before + split_words(
                t@,
                i as int,
            ));
            i = j;
        }
    }
    assert(texts(tokens@) + split_words(t@, i as int) =~= texts(tokens@));
    tokens
}

/// Splits a text into tokens: each parenthesis is a token of its own, a
/// quote directly before an opening parenthesis stands for `(` and `list`,
/// and everything else is cut at white space.
pub fn tokenize(expr: String) -> (tokens: Vec<String>)
    ensures
        texts(tokens@) == tokens_of(expr@),
{
    let chars = chars_of(expr.as_str());
    let wide = space_out(&chars);
    split(&wide)
}

/// Whether a token is wrapped in double quotes.
pub open spec fn is_quoted(token: Seq<char>) -> bool {
    token.len() >= 2 && token[0] == '"' && token[token.len() - 1] == '"'
}

/// The expression that a token other than a parenthesis stands for: a
/// keyword, else a number, else a text in double quotes, else a symbol.
pub open spec fn atom_spec(token: Seq<char>) -> Sexp {
    if token == "true"@ {
        Sexp::Bool(true)
    } else if token == "false"@ {
        Sexp::Bool(false)
    } else if token == "nil"@ {
        Sexp::Nil
    } else {
        match numeral_value(token) {
            Some(n) => Sexp::Number(n),
            None => if is_quoted(token) {
                Sexp::Literal(token.subrange(1, token.len() - 1))
            } else {
                Sexp::Symbol(token)
            },
        }
    }
}

/// Whether a string holds the same text as a literal.
fn is_text(token: &String, literal: &str) -> (r: bool)
    ensures
        r == (token@ == literal@),
{
    *token == literal.to_string()
}

/// The expression that a token other than a parenthesis stands for.
fn parse_atom(token: &String) -> (r: RispExp)
    ensures
        r@ == atom_spec(token@),
{
    if is_text(token, "true") {
        RispExp::Bool(true)
    } else if is_text(token, "false") {
        RispExp::Bool(false)
    } else if is_text(token, "nil") {
        RispExp::Nil
    } else {
        match parse_number(token.as_str()) {
            Some(v) => RispExp::Number(v),
            None => {
                let n: usize = token.as_str().unicode_len();
                if n >= 2 && token.as_str().get_char(0) == '"' && token.as_str().get_char(n - 1)
                    == '"' {
                    RispExp::Literal(token.as_str().substring_char(1, n - 1).to_string())
                } else {
                    RispExp::Symbol(token.clone())
                }
            },
        }
    }
}

/// The expression that starts at position `from`, with the position after it.
pub open spec fn parse_spec(tokens: Seq<Seq<char>>, from: int) -> Result<(Sexp, int), Failure>
    decreases tokens.len() - from, 0nat,
{
    if from < 0 || from >= tokens.len() {
        Err(Failure::Syntax(SyntaxFault::EmptyInput))
    } else if tokens[from] == "("@ {
        match read_seq_spec(tokens, from + 1) {
            Ok((items, next)) => Ok((Sexp::List(items), next)),
            Err(e) => Err(e),
        }
    } else if tokens[from] == ")"@ {
        Err(Failure::Syntax(SyntaxFault::UnexpectedClose))
    } else {
        Ok((atom_spec(tokens[from]), from + 1))
    }
}

/// The expressions from position `from` up to the `)` that closes their
/// list, with the position after that `)`. (An expression ends after the
/// position at which it starts, so the last case below never arises: see
/// `lemma_parse_advances`.)
pub open spec fn read_seq_spec(tokens: Seq<Seq<char>>, from: int) -> Result<
    (Seq<Sexp>, int),
    Failure,
>
    decreases tokens.len() - from, 1nat,
{
    if from < 0 || from >= tokens.len() {
        Err(Failure::Syntax(SyntaxFault::MissingClose))
    } else if tokens[from] == ")"@ {
        Ok((Seq::empty(), from + 1))
    } else {
        match parse_spec(tokens, from) {
            Err(e) => Err(e),
            Ok((first, next)) => if from < next <= tokens.len() {
                match read_seq_spec(tokens, next) {
                    Ok((rest, end)) => Ok((seq![first] + rest, end)),
                    Err(e) => Err(e),
                }
            } else {
                Err(Failure::Syntax(SyntaxFault::MissingClose))
            },
        }
    }
}

/// An expression that parses ends after the position at which it starts,
/// and within the tokens.
pub proof fn lemma_parse_advances(tokens: Seq<Seq<char>>, from: int)
    ensures
        parse_spec(tokens, from) matches Ok((_, next)) ==> from < next <= tokens.len(),
        read_seq_spec(tokens, from) matches Ok((_, next)) ==> from < next <= tokens.len(),
    decreases tokens.len() - from, 2nat,
{
    if 0 <= from < tokens.len() {
        lemma_parse_advances(tokens, from + 1);
        if tokens[from] != "("@ && tokens[from] != ")"@ {
            match parse_spec(tokens, from) {
                Ok((_, next)) => {
                    if from < next <= tokens.len() {
                        lemma_parse_advances(tokens, next);
                    }
                },
                Err(_) => {},
            }
        } else if tokens[from] == "("@ {
            match parse_spec(tokens, from) {
                Ok((_, next)) => {
                    lemma_parse_advances(tokens, next);
                },
                Err(_) => {},
            }
        }
    }
}

/// What is read when the items `done` have been read and reading goes on as
/// `rest` says.
pub open spec fn with_items(done: Seq<Sexp>, rest: Result<(Seq<Sexp>, int), Failure>) -> Result<
    (Seq<Sexp>, int),
    Failure,
> {
    match rest {
        Ok((items, end)) => Ok((done + items, end)),
        Err(e) => Err(e),
    }
}

/// Reads the expressions of a list up to the `)` that closes it.
fn read_seq(tokens: &[String], from: usize) -> (r: Result<(RispExp, usize), RispErr>)
    requires
        from <= tokens@.len(),
    ensures
        match read_seq_spec(texts(tokens@), from as int) {
            Ok((items, next)) => r matches Ok((e, n)) && e@ == Sexp::List(items) && n == next,
            Err(f) => r matches Err(e) && e@ == f,
        },
    decreases tokens@.len() - from, 1nat,
{
    let ghost all = texts(tokens@);
    let mut res: Vec<RispExp> = Vec::new();
    let mut pos: usize = from;
    loop
        invariant
            from <= pos <= tokens@.len(),
            all == texts(tokens@),
            read_seq_spec(all, from as int) == with_items(sexps(&res), read_seq_spec(all, pos as int)),
        decreases tokens@.len() - pos,
    {
        if pos >= tokens.len() {
            return Err(RispErr::Syntax(SyntaxFault::MissingClose));
        }
        if is_text(&tokens[pos], ")") {
            assert(sexps(&res) + Seq::<Sexp>::empty() =~= sexps(&res));
            return Ok((RispExp::List(res), pos + 1));
        }
        proof {
            lemma_parse_advances(all, pos as int);
        }
        let ghost done = sexps(&res);
        match parse_at(tokens, pos) {
            Ok((exp, next)) => {
                res.push(exp);
                proof {
                    assert(sexps(&res) =~= done.push(exp@));
                    let rest = read_seq_spec(all, next as int);
                    match rest {
                        Ok((items, end)) => {
                            assert(done + (seq![exp@] + items) =~= sexps(&res) + items);
                        },
                        Err(_) => {},
                    }
                }
                pos = next;
            },
            Err(e) => {
                return Err(e);
            },
        }
    }
}

/// Reads the expression that starts at position `from` and gives the
/// position after it.
pub fn parse_at(tokens: &[String], from: usize) -> (r: Result<(RispExp, usize), RispErr>)
    requires
        from <= tokens@.len(),
    ensures
        match parse_spec(texts(tokens@), from as int) {
            Ok((exp, next)) => r matches Ok((e, n)) && e@ == exp && n == next && from < n
                <= tokens@.len(),
            Err(f) => r matches Err(e) && e@ == f,
        },
    decreases tokens@.len() - from, 0nat,
{
    proof {
        lemma_parse_advances(texts(tokens@), from as int);
    }
    if from >= tokens.len() {
        return Err(RispErr::Syntax(SyntaxFault::EmptyInput));
    }
    let token = &tokens[from];
    if is_text(token, "(") {
        read_seq(tokens, from + 1)
    } else if is_text(token, ")") {
        Err(RispErr::Syntax(SyntaxFault::UnexpectedClose))
    } else {
        Ok((parse_atom(token), from + 1))
    }
}

/// Reads the first expression of a sequence of tokens and hands back the
/// tokens after it. Fails where no token is left, where a `)` stands first,
/// and where a list is not closed.
pub fn parse(tokens: &[String]) -> (r: Result<(RispExp, &[String]), RispErr>)
    ensures
        match parse_spec(texts(tokens@), 0) {
            Ok((exp, next)) => r matches Ok((e, rest)) && e@ == exp && rest@ == tokens@.subrange(
                next,
                tokens@.len() as int,
            ),
            Err(f) => r matches Err(e) && e@ == f,
        },
{
    match parse_at(tokens, 0) {
        Ok((exp, next)) => Ok((exp, slice_subrange(tokens, next, tokens.len()))),
        Err(e) => Err(e),
    }
}

/// Whether every value of a sequence is a symbol.
pub open spec fn all_symbols(items: Seq<Sexp>) -> bool {
    forall|i: int| 0 <= i < items.len() ==> items[i] is Symbol
}

/// The name of a value that is a symbol.
pub open spec fn symbol_name(e: Sexp) -> Seq<char> {
    match e {
        Sexp::Symbol(s) => s,
        _ => Seq::empty(),
    }
}

/// The names that a parameter list declares: it must be a list, and each of
/// its items a symbol.
pub open spec fn param_names(params: Sexp) -> Result<Seq<Seq<char>>, Failure> {
    match params {
        Sexp::List(items) => if all_symbols(items) {
            Ok(Seq::new(items.len(), |i: int| symbol_name(items[i])))
        } else {
            Err(Failure::TypeMismatch(Expected::ParameterSymbol))
        },
        _ => Err(Failure::TypeMismatch(Expected::ParameterList)),
    }
}

/// The names that a parameter list declares.
pub fn parse_list_of_symbol_strings(list: Rc<RispExp>) -> (r: Result<Vec<String>, RispErr>)
    ensures
        match param_names((*list)@) {
            Ok(names) => r matches Ok(v) && texts(v@) == names,
            Err(f) => r matches Err(e) && e@ == f,
        },
{
    match &*list {
        RispExp::List(l) => {
            let mut names: Vec<String> = Vec::new();
            let mut i: usize = 0;
            while i < l.len()
                invariant
                    i <= l.len(),
                    (*list)@ == Sexp::List(sexps(l)),
                    names@.len() == i,
                    forall|j: int| 0 <= j < i ==> sexps(l)[j] == Sexp::Symbol(names@[j]@),
                decreases l.len() - i,
            {
                match &l[i] {
                    RispExp::Symbol(s) => {
                        names.push(s.clone());
                    },
                    _ => {
                        assert(!(sexps(l)[i as int] is Symbol));
                        return Err(RispErr::TypeMismatch(Expected::ParameterSymbol));
                    },
                }
                i += 1;
            }
            assert(texts(names@) =~= Seq::new(sexps(l).len(), |i: int| symbol_name(sexps(l)[i])));
            Ok(names)
        },
        _ => Err(RispErr::TypeMismatch(Expected::ParameterList)),
    }
}

} // verus!
