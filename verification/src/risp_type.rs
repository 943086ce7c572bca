//! The values of the language, its failures, and the chain of scopes in which
//! names are resolved.

use crate::decimal::{number_text, render_number};
use std::rc::Rc;
use vstd::prelude::*;
use vstd::string::StringExecFns;

verus! {

broadcast use vstd::std_specs::vec::group_vec_axioms;

/// A built-in function.
#[derive(Clone, Copy, PartialEq, Eq, Structural, Debug)]
pub enum Primitive {
    Add,
    Subtract,
    Multiply,
    Divide,
    Equal,
    Greater,
    Less,
    GreaterEqual,
    LessEqual,
    MakeList,
    Car,
    Cdr,
    Nth,
}

/// An expression, which is also what an expression evaluates to.
#[derive(Debug, PartialEq)]
pub enum RispExp {
    Nil,
    Bool(bool),
    Symbol(String),
    Literal(String),
    /// An IEEE-754 binary64 number, held as its bit pattern.
    Number(u64),
    List(Vec<RispExp>),
    Func(Primitive),
    Lambda(RispLambda),
}

/// A function defined in the language: what stood as its parameter list, and
/// the expressions of its body.
#[derive(Debug, PartialEq)]
pub struct RispLambda {
    pub params_exp: Rc<RispExp>,
    pub body_exp: Rc<Vec<RispExp>>,
}

/// The mathematical value of an expression.
pub enum Sexp {
    Nil,
    Bool(bool),
    Symbol(Seq<char>),
    Literal(Seq<char>),
    Number(u64),
    List(Seq<Sexp>),
    Func(Primitive),
    Lambda(Box<Sexp>, Seq<Sexp>),
}

/// The value of each expression of a vector, in order.
pub open spec fn sexps(v: &Vec<RispExp>) -> Seq<Sexp>
    decreases v,
{
    Seq::new(
        v.len() as nat,
        |i: int|
            if 0 <= i < v.len() {
                v[i].sexp()
            } else {
                Sexp::Nil
            },
    )
}

impl RispExp {
    /// The mathematical value of the expression.
    pub open spec fn sexp(&self) -> Sexp
        decreases self,
    {
        match self {
            RispExp::Nil => Sexp::Nil,
            RispExp::Bool(b) => Sexp::Bool(*b),
            RispExp::Symbol(s) => Sexp::Symbol(s@),
            RispExp::Literal(s) => Sexp::Literal(s@),
            RispExp::Number(n) => Sexp::Number(*n),
            RispExp::List(v) => Sexp::List(sexps(v)),
            RispExp::Func(p) => Sexp::Func(*p),
            RispExp::Lambda(l) => Sexp::Lambda(Box::new((*l.params_exp).sexp()), sexps(&*l.body_exp)),
        }
    }
}

impl View for RispExp {
    type V = Sexp;

    open spec fn view(&self) -> Sexp {
        self.sexp()
    }
}

impl View for RispLambda {
    type V = Sexp;

    open spec fn view(&self) -> Sexp {
        Sexp::Lambda(Box::new((*self.params_exp).sexp()), sexps(&*self.body_exp))
    }
}

/// Calls `Rc::clone`, which gives a second handle to the same value.
#[verifier::external_body]
pub(crate) fn share<T>(rc: &Rc<T>) -> (r: Rc<T>)
    ensures
        r == *rc,
{
    Rc::clone(rc)
}

/// A copy of each expression of a slice, in order.
pub fn clone_all(items: &[RispExp]) -> (r: Vec<RispExp>)
    ensures
        r@.len() == items@.len(),
        forall|i: int| 0 <= i < items@.len() ==> r@[i]@ == items@[i]@,
    decreases items@,
{
    let mut out: Vec<RispExp> = Vec::new();
    let mut i: usize = 0;
    while i < items.len()
        invariant
            i <= items@.len(),
            out@.len() == i,
            forall|j: int| 0 <= j < i ==> out@[j]@ == items@[j]@,
        decreases items@.len() - i,
    {
        out.push(items[i].clone());
        i += 1;
    }
    out
}

impl Clone for RispLambda {
    fn clone(&self) -> (r: Self)
        ensures
            r@ == self@,
    {
        RispLambda { params_exp: share(&self.params_exp), body_exp: share(&self.body_exp) }
    }
}

impl Clone for RispExp {
    fn clone(&self) -> (r: Self)
        ensures
            r@ == self@,
        decreases self,
    {
        match self {
            RispExp::Nil => RispExp::Nil,
            RispExp::Bool(b) => RispExp::Bool(*b),
            RispExp::Symbol(s) => RispExp::Symbol(s.clone()),
            RispExp::Literal(s) => RispExp::Literal(s.clone()),
            RispExp::Number(n) => RispExp::Number(*n),
            RispExp::List(v) => {
                let copy = clone_all(v.as_slice());
                assert(sexps(&copy) =~= sexps(v));
                RispExp::List(copy)
            },
            RispExp::Func(p) => RispExp::Func(*p),
            RispExp::Lambda(l) => RispExp::Lambda(l.clone()),
        }
    }
}

/// The text of an expression, for diagnostics: lists in parentheses with
/// commas between their items, functions as a placeholder.
pub open spec fn render(e: Sexp) -> Seq<char>
    decreases e, 0nat,
{
    match e {
        Sexp::Nil => "nil"@,
        Sexp::Bool(b) => if b {
            "true"@
        } else {
            "false"@
        },
        Sexp::Symbol(s) => s,
        Sexp::Literal(s) => s,
        Sexp::Number(n) => number_text(n),
        Sexp::List(items) => "("@ + render_joined(items, 0) + ")"@,
        Sexp::Func(_) => "Function"@,
        Sexp::Lambda(_, _) => "Lambda"@,
    }
}

/// The texts of the items from position `from` on, each but the very first
/// item of the list preceded by a comma.
pub open spec fn render_joined(items: Seq<Sexp>, from: int) -> Seq<char>
    decreases items, items.len() - from,
{
    if 0 <= from < items.len() {
        (if from > 0 {
            ","@
        } else {
            Seq::<char>::empty()
        }) + render(items[from]) + render_joined(items, from + 1)
    } else {
        Seq::<char>::empty()
    }
}

/// The value of each expression of a sequence, in order.
pub open spec fn slice_sexps(items: Seq<RispExp>) -> Seq<Sexp> {
    Seq::new(items.len(), |i: int| items[i]@)
}

/// The texts of the items of a list, with commas between them.
pub fn join_text(items: &[RispExp]) -> (r: String)
    ensures
        r@ == render_joined(slice_sexps(items@), 0),
    decreases items@,
{
    let ghost values = slice_sexps(items@);
    let mut out: String = String::new();
    let mut i: usize = 0;
    while i < items.len()
        invariant
            i <= items@.len(),
            values == slice_sexps(items@),
            out@ + render_joined(values, i as int) == render_joined(values, 0),
        decreases items@.len() - i,
    {
        let ghost before = out@;
        if i > 0 {
            out.append(",");
        }
        let text = items[i].to_string();
        out.append(text.as_str());
        assert(out@ + render_joined(values, i + 1) =~= before + render_joined(values, i as int));
        i += 1;
    }
    assert(out@ + render_joined(values, i as int) =~= out@);
    out
}

impl RispExp {
    /// The text of the expression.
    pub fn to_string(&self) -> (r: String)
        ensures
            r@ == render(self@),
        decreases self,
    {
        match self {
            RispExp::Nil => "nil".to_string(),
            RispExp::Bool(b) => if *b {
                "true".to_string()
            } else {
                "false".to_string()
            },
            RispExp::Symbol(s) => s.clone(),
            RispExp::Literal(s) => s.clone(),
            RispExp::Number(n) => render_number(*n),
            RispExp::List(v) => {
                let mut out: String = "(".to_string();
                let inner = join_text(v.as_slice());
                out.append(inner.as_str());
                out.append(")");
                assert(sexps(v) =~= slice_sexps(v@));
                out
            },
            RispExp::Func(_) => "Function".to_string(),
            RispExp::Lambda(_) => "Lambda".to_string(),
        }
    }
}

/// What is wrong with the shape of a text or of an expression.
#[derive(Clone, Copy, PartialEq, Eq, Structural, Debug)]
pub enum SyntaxFault {
    /// No token is left where an expression must start.
    EmptyInput,
    /// A `)` stands where an expression must start.
    UnexpectedClose,
    /// The tokens end inside a list.
    MissingClose,
    /// An empty list stands where a call must.
    EmptyCall,
    /// A function value stands where an expression must.
    FunctionValue,
}

/// The kind of value that a position asks for.
#[derive(Clone, Copy, PartialEq, Eq, Structural, Debug)]
pub enum Expected {
    Bool,
    Number,
    Symbol,
    List,
    NonEmptyList,
    /// A closure's parameters must be a list.
    ParameterList,
    /// Each parameter of a closure must be a symbol.
    ParameterSymbol,
}

/// The kinds of failure.
#[derive(Clone, Copy, PartialEq, Eq, Structural, Debug)]
pub enum ErrorKind {
    Syntax,
    UnboundSymbol,
    TypeMismatch,
    Arity,
    InvalidCallee,
    DivisionByZero,
    Io,
    DepthExceeded,
}

/// A failure of parsing or of evaluation.
#[derive(Debug, PartialEq)]
pub enum RispErr {
    Syntax(SyntaxFault),
    /// No scope of the chain binds this name.
    UnboundSymbol(String),
    TypeMismatch(Expected),
    /// A call with a fixed number of parameters got another number of arguments.
    Arity { expected: usize, actual: usize },
    /// The argument at this position is asked for and is not there.
    MissingArgument(usize),
    /// What stands at the head of a call, by its text, is no function.
    InvalidCallee(String),
    DivisionByZero,
    /// The host could not hand over a file; the text is the host's own.
    Io(String),
    /// Calls are nested deeper than the evaluation was allowed to go.
    DepthExceeded,
}

/// The mathematical value of a failure.
pub enum Failure {
    Syntax(SyntaxFault),
    UnboundSymbol(Seq<char>),
    TypeMismatch(Expected),
    Arity { expected: nat, actual: nat },
    MissingArgument(nat),
    InvalidCallee(Seq<char>),
    DivisionByZero,
    Io(Seq<char>),
    DepthExceeded,
}

impl Failure {
    pub open spec fn kind(self) -> ErrorKind {
        match self {
            Failure::Syntax(_) => ErrorKind::Syntax,
            Failure::UnboundSymbol(_) => ErrorKind::UnboundSymbol,
            Failure::TypeMismatch(_) => ErrorKind::TypeMismatch,
            Failure::Arity { .. } => ErrorKind::Arity,
            Failure::MissingArgument(_) => ErrorKind::Arity,
            Failure::InvalidCallee(_) => ErrorKind::InvalidCallee,
            Failure::DivisionByZero => ErrorKind::DivisionByZero,
            Failure::Io(_) => ErrorKind::Io,
            Failure::DepthExceeded => ErrorKind::DepthExceeded,
        }
    }
}

impl View for RispErr {
    type V = Failure;

    open spec fn view(&self) -> Failure {
        match self {
            RispErr::Syntax(f) => Failure::Syntax(*f),
            RispErr::UnboundSymbol(s) => Failure::UnboundSymbol(s@),
            RispErr::TypeMismatch(e) => Failure::TypeMismatch(*e),
            RispErr::Arity { expected, actual } => Failure::Arity {
                expected: *expected as nat,
                actual: *actual as nat,
            },
            RispErr::MissingArgument(i) => Failure::MissingArgument(*i as nat),
            RispErr::InvalidCallee(s) => Failure::InvalidCallee(s@),
            RispErr::DivisionByZero => Failure::DivisionByZero,
            RispErr::Io(s) => Failure::Io(s@),
            RispErr::DepthExceeded => Failure::DepthExceeded,
        }
    }
}

impl RispErr {
    /// The kind of the failure.
    pub fn kind(&self) -> (k: ErrorKind)
        ensures
            k == self@.kind(),
    {
        match self {
            RispErr::Syntax(_) => ErrorKind::Syntax,
            RispErr::UnboundSymbol(_) => ErrorKind::UnboundSymbol,
            RispErr::TypeMismatch(_) => ErrorKind::TypeMismatch,
            RispErr::Arity { .. } => ErrorKind::Arity,
            RispErr::MissingArgument(_) => ErrorKind::Arity,
            RispErr::InvalidCallee(_) => ErrorKind::InvalidCallee,
            RispErr::DivisionByZero => ErrorKind::DivisionByZero,
            RispErr::Io(_) => ErrorKind::Io,
            RispErr::DepthExceeded => ErrorKind::DepthExceeded,
        }
    }
}

/// What evaluating or parsing gives: a value or a failure.
pub type RispResult = Result<RispExp, RispErr>;

/// The mathematical value of a result.
pub open spec fn result_view(r: RispResult) -> Result<Sexp, Failure> {
    match r {
        Ok(e) => Ok(e@),
        Err(e) => Err(e@),
    }
}

/// The mathematical value of an optional expression.
pub open spec fn option_view(r: Option<RispExp>) -> Option<Sexp> {
    match r {
        Some(e) => Some(e@),
        None => None,
    }
}

/// The bindings of one scope: names with their values, in the order in
/// which the names were first bound. Of two pairs with one name the earlier
/// counts.
pub type Scope = Seq<(Seq<char>, Sexp)>;

/// The position of the first pair at or after `from` that holds a name.
pub open spec fn position(scope: Scope, name: Seq<char>, from: int) -> Option<int>
    decreases scope.len() - from,
{
    if from < 0 || from >= scope.len() {
        None
    } else if scope[from].0 == name {
        Some(from)
    } else {
        position(scope, name, from + 1)
    }
}

/// The value that a scope gives a name.
pub open spec fn lookup_in(scope: Scope, name: Seq<char>) -> Option<Sexp> {
    match position(scope, name, 0) {
        Some(i) => Some(scope[i].1),
        None => None,
    }
}

/// The scope after a name is bound in it: the new value stands where the
/// name stood before, or at the end where the name is new.
pub open spec fn put(scope: Scope, name: Seq<char>, value: Sexp) -> Scope {
    match position(scope, name, 0) {
        Some(i) => scope.update(i, (name, value)),
        None => scope.push((name, value)),
    }
}

/// The value that a chain of scopes gives a name: that of the first scope
/// that binds it, the innermost scope being the first.
pub open spec fn lookup(scopes: Seq<Scope>, name: Seq<char>) -> Option<Sexp>
    decreases scopes.len(),
{
    if scopes.len() == 0 {
        None
    } else {
        match lookup_in(scopes[0], name) {
            Some(v) => Some(v),
            None => lookup(scopes.drop_first(), name),
        }
    }
}

/// The chain after a name is bound in its innermost scope.
pub open spec fn bind(scopes: Seq<Scope>, name: Seq<char>, value: Sexp) -> Seq<Scope>
    recommends
        scopes.len() > 0,
{
    scopes.update(0, put(scopes[0], name, value))
}

/// The names and values that a list of pairs holds, in order.
pub open spec fn pairs_view(pairs: Seq<(String, RispExp)>) -> Scope {
    Seq::new(pairs.len(), |i: int| (pairs[i].0@, pairs[i].1@))
}

/// A scope, and the scope that encloses it.
#[derive(Debug)]
pub struct RispEnv<'a> {
    /// The bindings of this scope. Of two pairs with one name the earlier counts.
    pub data: Vec<(String, RispExp)>,
    pub outer: Option<&'a RispEnv<'a>>,
}

impl<'a> RispEnv<'a> {
    /// The bindings of this scope alone.
    pub open spec fn bindings(&self) -> Scope {
        pairs_view(self.data@)
    }

    /// The scopes of the chain, this one first.
    pub open spec fn scopes(&self) -> Seq<Scope>
        decreases self,
    {
        match self.outer {
            Some(o) => seq![self.bindings()] + o.scopes(),
            None => seq![self.bindings()],
        }
    }
}

impl<'a> View for RispEnv<'a> {
    type V = Seq<Scope>;

    open spec fn view(&self) -> Seq<Scope> {
        self.scopes()
    }
}

impl<'a> Clone for RispEnv<'a> {
    /// A scope of its own with the same bindings inside the same scope.
    fn clone(&self) -> (r: Self)
        ensures
            r.bindings() == self.bindings(),
            r.outer == self.outer,
            r@ == self@,
    {
        let mut data: Vec<(String, RispExp)> = Vec::new();
        let mut i: usize = 0;
        while i < self.data.len()
            invariant
                i <= self.data@.len(),
                data@.len() == i,
                forall|j: int| 0 <= j < i ==> data@[j].0@ == self.data@[j].0@ && data@[j].1@
                    == self.data@[j].1@,
            decreases self.data@.len() - i,
        {
            data.push((self.data[i].0.clone(), self.data[i].1.clone()));
            i += 1;
        }
        let r = RispEnv { data, outer: self.outer };
        assert(r.bindings() =~= self.bindings());
        r
    }
}

impl<'a> RispEnv<'a> {
    /// A scope without bindings inside `outer`.
    pub fn new(outer: Option<&'a RispEnv<'a>>) -> (env: Self)
        ensures
            env.bindings() == Seq::<(Seq<char>, Sexp)>::empty(),
            env.outer == outer,
    {
        let env = RispEnv { data: Vec::new(), outer };
        assert(env.bindings() =~= Seq::<(Seq<char>, Sexp)>::empty());
        env
    }

    /// The position of the pair that counts for `name` in this scope.
    fn find(&self, name: &String) -> (r: Option<usize>)
        ensures
            match r {
                Some(i) => i < self.data@.len() && position(self.bindings(), name@, 0) == Some(
                    i as int,
                ),
                None => position(self.bindings(), name@, 0) is None,
            },
    {
        let mut i: usize = 0;
        while i < self.data.len()
            invariant
                i <= self.data@.len(),
                position(self.bindings(), name@, 0) == position(self.bindings(), name@, i as int),
            decreases self.data@.len() - i,
        {
            if self.data[i].0 == *name {
                return Some(i);
            }
            i += 1;
        }
        None
    }

    /// The value of a name: that of the innermost scope of the chain that
    /// binds it, or nothing where none does.
    pub fn get(&self, key: &str) -> (r: Option<RispExp>)
        ensures
            option_view(r) == lookup(self@, key@),
        decreases self,
    {
        let name: String = key.to_string();
        assert(self@[0] == self.bindings());
        match self.find(&name) {
            Some(i) => Some(self.data[i].1.clone()),
            None => match self.outer {
                Some(outer_env) => {
                    assert(self@.drop_first() =~= outer_env@);
                    outer_env.get(key)
                },
                None => {
                    assert(self@.drop_first() =~= Seq::<Scope>::empty());
                    assert(lookup(self@.drop_first(), key@) is None);
                    None
                },
            },
        }
    }

    /// Binds a name in this scope, in place of what it was bound to there.
    /// No enclosing scope changes.
    pub fn insert(&mut self, key: String, value: RispExp)
        ensures
            final(self).bindings() == put(old(self).bindings(), key@, value@),
            final(self).outer == old(self).outer,
            final(self)@ == bind(old(self)@, key@, value@),
    {
        match self.find(&key) {
            Some(i) => {
                self.data.set(i, (key, value));
            },
            None => {
                self.data.push((key, value));
            },
        }
        assert(final(self).bindings() =~= put(old(self).bindings(), key@, value@));
        assert(final(self)@ =~= bind(old(self)@, key@, value@));
    }
}

} // verus!
