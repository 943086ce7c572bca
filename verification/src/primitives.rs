//! The built-in functions, and the scope that binds them.

use crate::number::{
    add_bits, bits_eq, bits_is_zero, bits_le, bits_lt, bits_to_index, div_bits, float_difference,
    float_eq, float_le, float_lt, float_product, float_quotient, float_sum, is_zero, mul_bits,
    sub_bits, truncate_index,
};
use crate::risp_type::{
    clone_all, result_view, slice_sexps, Expected, Failure, Primitive, RispEnv,
    RispErr, RispExp, RispResult, Scope, Sexp,
};
use vstd::prelude::*;

verus! {

broadcast use vstd::std_specs::vec::group_vec_axioms;

/// Whether every value of a sequence is a number.
pub open spec fn all_numbers(vals: Seq<Sexp>) -> bool {
    forall|i: int| 0 <= i < vals.len() ==> vals[i] is Number
}

/// The bit pattern of a value that is a number.
pub open spec fn number_of(e: Sexp) -> u64 {
    match e {
        Sexp::Number(n) => n,
        _ => 0,
    }
}

/// What an arithmetic function makes of two numbers.
pub open spec fn arith(op: Primitive, a: u64, b: u64) -> u64 {
    match op {
        Primitive::Add => float_sum(a, b),
        Primitive::Subtract => float_difference(a, b),
        Primitive::Multiply => float_product(a, b),
        _ => float_quotient(a, b),
    }
}

/// The first `n` numbers of a sequence, combined from the left:
/// `((v0 op v1) op v2) ..`.
pub open spec fn fold_numbers(op: Primitive, vals: Seq<Sexp>, n: int) -> u64
    decreases n,
{
    if n <= 1 {
        number_of(vals[0])
    } else {
        arith(op, fold_numbers(op, vals, n - 1), number_of(vals[n - 1]))
    }
}

/// Whether a comparison holds between two numbers.
pub open spec fn relation(op: Primitive, a: u64, b: u64) -> bool {
    match op {
        Primitive::Equal => float_eq(a, b),
        Primitive::Greater => float_lt(b, a),
        Primitive::Less => float_lt(a, b),
        Primitive::GreaterEqual => float_le(b, a),
        _ => float_le(a, b),
    }
}

/// Whether a comparison holds between the number at position `i` and the next.
pub open spec fn pair_holds(op: Primitive, vals: Seq<Sexp>, i: int) -> bool {
    relation(op, number_of(vals[i]), number_of(vals[i + 1]))
}

/// Whether a comparison holds between every number of a sequence and the next.
pub open spec fn chain_holds(op: Primitive, vals: Seq<Sexp>) -> bool {
    forall|i: int| 0 <= i < vals.len() - 1 ==> #[trigger] pair_holds(op, vals, i)
}

/// The first item of a list.
pub open spec fn car_spec(items: Seq<Sexp>) -> Result<Sexp, Failure> {
    if items.len() == 0 {
        Err(Failure::TypeMismatch(Expected::NonEmptyList))
    } else {
        Ok(items[0])
    }
}

/// The list without its first item, or `Nil` where nothing is left.
pub open spec fn cdr_spec(items: Seq<Sexp>) -> Sexp {
    if items.len() <= 1 {
        Sexp::Nil
    } else {
        Sexp::List(items.drop_first())
    }
}

/// What a built-in function returns for its evaluated arguments.
pub open spec fn apply_spec(p: Primitive, vals: Seq<Sexp>) -> Result<Sexp, Failure> {
    match p {
        Primitive::Add | Primitive::Subtract | Primitive::Multiply => if !all_numbers(vals) {
            Err(Failure::TypeMismatch(Expected::Number))
        } else if vals.len() == 0 {
            Err(Failure::MissingArgument(0))
        } else {
            Ok(Sexp::Number(fold_numbers(p, vals, vals.len() as int)))
        },
        Primitive::Divide => if !all_numbers(vals) {
            Err(Failure::TypeMismatch(Expected::Number))
        } else if vals.len() == 0 {
            Err(Failure::MissingArgument(0))
        } else if is_zero(number_of(vals[0])) {
            Err(Failure::DivisionByZero)
        } else {
            Ok(Sexp::Number(fold_numbers(p, vals, vals.len() as int)))
        },
        Primitive::Equal
        | Primitive::Greater
        | Primitive::Less
        | Primitive::GreaterEqual
        | Primitive::LessEqual => if !all_numbers(vals) {
            Err(Failure::TypeMismatch(Expected::Number))
        } else if vals.len() == 0 {
            Err(Failure::MissingArgument(0))
        } else {
            Ok(Sexp::Bool(chain_holds(p, vals)))
        },
        Primitive::MakeList => Ok(Sexp::List(vals)),
        Primitive::Car => if vals.len() != 1 {
            Err(Failure::Arity { expected: 1, actual: vals.len() })
        } else {
            match vals[0] {
                Sexp::List(items) => car_spec(items),
                _ => Err(Failure::TypeMismatch(Expected::List)),
            }
        },
        Primitive::Cdr => if vals.len() != 1 {
            Err(Failure::Arity { expected: 1, actual: vals.len() })
        } else {
            match vals[0] {
                Sexp::List(items) => Ok(cdr_spec(items)),
                _ => Err(Failure::TypeMismatch(Expected::List)),
            }
        },
        Primitive::Nth => if vals.len() != 2 {
            Err(Failure::Arity { expected: 2, actual: vals.len() })
        } else {
            match vals[1] {
                Sexp::List(items) => match vals[0] {
                    Sexp::Number(n) => if truncate_index(n) < items.len() {
                        Ok(items[truncate_index(n) as int])
                    } else {
                        Ok(Sexp::Nil)
                    },
                    _ => Err(Failure::TypeMismatch(Expected::Number)),
                },
                _ => Err(Failure::TypeMismatch(Expected::List)),
            }
        },
    }
}

/// The first item of a list; an empty list has none.
pub fn native_car(list: &[RispExp]) -> (r: RispResult)
    ensures
        result_view(r) == car_spec(slice_sexps(list@)),
{
    if list.len() == 0 {
        Err(RispErr::TypeMismatch(Expected::NonEmptyList))
    } else {
        Ok(list[0].clone())
    }
}

/// The list without its first item, or `Nil` where nothing is left.
pub fn native_cdr(list: &[RispExp]) -> (r: RispResult)
    ensures
        r is Ok,
        result_view(r) == Ok::<Sexp, Failure>(cdr_spec(slice_sexps(list@))),
{
    if list.len() <= 1 {
        Ok(RispExp::Nil)
    } else {
        let rest = vstd::slice::slice_subrange(list, 1, list.len());
        let copy = clone_all(rest);
        assert(crate::risp_type::sexps(&copy) =~= slice_sexps(list@).drop_first());
        Ok(RispExp::List(copy))
    }
}

/// The items of an expression that is a list.
fn parse_single_list(exp: &RispExp) -> (r: Result<&Vec<RispExp>, RispErr>)
    ensures
        match r {
            Ok(items) => *exp == RispExp::List(*items),
            Err(e) => !(exp@ is List) && e@ == Failure::TypeMismatch(Expected::List),
        },
{
    match exp {
        RispExp::List(list) => Ok(list),
        _ => Err(RispErr::TypeMismatch(Expected::List)),
    }
}

/// The bit pattern of an expression that is a number.
fn parse_single_float(exp: &RispExp) -> (r: Result<u64, RispErr>)
    ensures
        match r {
            Ok(n) => exp@ == Sexp::Number(n),
            Err(e) => !(exp@ is Number) && e@ == Failure::TypeMismatch(Expected::Number),
        },
{
    match exp {
        RispExp::Number(num) => Ok(*num),
        _ => Err(RispErr::TypeMismatch(Expected::Number)),
    }
}

/// The bit patterns of expressions that are all numbers.
fn parse_list_of_floats(args: &[RispExp]) -> (r: Result<Vec<u64>, RispErr>)
    ensures
        match r {
            Ok(nums) => {
                &&& all_numbers(slice_sexps(args@))
                &&& nums@.len() == args@.len()
                &&& forall|i: int| 0 <= i < nums@.len() ==> nums@[i] == number_of(args@[i]@)
            },
            Err(e) => {
                &&& !all_numbers(slice_sexps(args@))
                &&& e@ == Failure::TypeMismatch(Expected::Number)
            },
        },
{
    let mut nums: Vec<u64> = Vec::new();
    let mut i: usize = 0;
    while i < args.len()
        invariant
            i <= args@.len(),
            nums@.len() == i,
            forall|j: int| 0 <= j < i ==> args@[j]@ == Sexp::Number(nums@[j]),
        decreases args@.len() - i,
    {
        match parse_single_float(&args[i]) {
            Ok(n) => {
                nums.push(n);
            },
            Err(e) => {
                assert(!(slice_sexps(args@)[i as int] is Number));
                return Err(e);
            },
        }
        i += 1;
    }
    assert forall|j: int| 0 <= j < args@.len() implies slice_sexps(args@)[j] is Number by {
        assert(args@[j]@ == Sexp::Number(nums@[j]));
    }
    Ok(nums)
}

/// What an arithmetic function makes of two numbers.
fn apply_arith(op: Primitive, a: u64, b: u64) -> (r: u64)
    ensures
        r == arith(op, a, b),
{
    match op {
        Primitive::Add => add_bits(a, b),
        Primitive::Subtract => sub_bits(a, b),
        Primitive::Multiply => mul_bits(a, b),
        _ => div_bits(a, b),
    }
}

/// Whether a comparison holds between two numbers.
fn holds_between(op: Primitive, a: u64, b: u64) -> (r: bool)
    ensures
        r == relation(op, a, b),
{
    match op {
        Primitive::Equal => bits_eq(a, b),
        Primitive::Greater => bits_lt(b, a),
        Primitive::Less => bits_lt(a, b),
        Primitive::GreaterEqual => bits_le(b, a),
        _ => bits_le(a, b),
    }
}

/// Combines numbers from the left with an arithmetic function.
fn fold_arithmetic(op: Primitive, args: &[RispExp]) -> (r: RispResult)
    requires
        op == Primitive::Add || op == Primitive::Subtract || op == Primitive::Multiply || op
            == Primitive::Divide,
    ensures
        result_view(r) == apply_spec(op, slice_sexps(args@)),
{
    let ghost vals = slice_sexps(args@);
    let nums = parse_list_of_floats(args)?;
    if nums.len() == 0 {
        return Err(RispErr::MissingArgument(0));
    }
    let mut acc: u64 = nums[0];
    if op == Primitive::Divide && bits_is_zero(acc) {
        return Err(RispErr::DivisionByZero);
    }
    let mut i: usize = 1;
    while i < nums.len()
        invariant
            1 <= i <= nums@.len(),
            nums@.len() == vals.len(),
            forall|j: int| 0 <= j < nums@.len() ==> nums@[j] == number_of(vals[j]),
            acc == fold_numbers(op, vals, i as int),
        decreases nums@.len() - i,
    {
        acc = apply_arith(op, acc, nums[i]);
        i += 1;
    }
    Ok(RispExp::Number(acc))
}

/// Checks a comparison between every number and the next.
fn compare_chain(op: Primitive, args: &[RispExp]) -> (r: RispResult)
    requires
        op == Primitive::Equal || op == Primitive::Greater || op == Primitive::Less || op
            == Primitive::GreaterEqual || op == Primitive::LessEqual,
    ensures
        result_view(r) == apply_spec(op, slice_sexps(args@)),
{
    let ghost vals = slice_sexps(args@);
    let nums = parse_list_of_floats(args)?;
    if nums.len() == 0 {
        return Err(RispErr::MissingArgument(0));
    }
    let mut i: usize = 0;
    while i < nums.len() - 1
        invariant
            i < nums@.len(),
            vals == slice_sexps(args@),
            all_numbers(vals),
            op == Primitive::Equal || op == Primitive::Greater || op == Primitive::Less || op
                == Primitive::GreaterEqual || op == Primitive::LessEqual,
            nums@.len() == vals.len(),
            forall|j: int| 0 <= j < nums@.len() ==> nums@[j] == number_of(vals[j]),
            forall|j: int| 0 <= j < i ==> #[trigger] pair_holds(op, vals, j),
        decreases nums@.len() - i,
    {
        if !holds_between(op, nums[i], nums[i + 1]) {
            assert(!pair_holds(op, vals, i as int));
            return Ok(RispExp::Bool(false));
        }
        i += 1;
    }
    assert(chain_holds(op, vals));
    Ok(RispExp::Bool(true))
}

/// Applies a built-in function to its evaluated arguments.
pub fn apply_primitive(p: Primitive, args: &[RispExp]) -> (r: RispResult)
    ensures
        result_view(r) == apply_spec(p, slice_sexps(args@)),
{
    let ghost vals = slice_sexps(args@);
    match p {
        Primitive::Add | Primitive::Subtract | Primitive::Multiply | Primitive::Divide => {
            fold_arithmetic(p, args)
        },
        Primitive::Equal
        | Primitive::Greater
        | Primitive::Less
        | Primitive::GreaterEqual
        | Primitive::LessEqual => compare_chain(p, args),
        Primitive::MakeList => {
            let copy = clone_all(args);
            assert(crate::risp_type::sexps(&copy) =~= vals);
            Ok(RispExp::List(copy))
        },
        Primitive::Car => {
            if args.len() != 1 {
                return Err(RispErr::Arity { expected: 1, actual: args.len() });
            }
            let list = parse_single_list(&args[0])?;
            assert(vals[0] == Sexp::List(crate::risp_type::sexps(list)));
            assert(crate::risp_type::sexps(list) =~= slice_sexps(list@));
            native_car(list.as_slice())
        },
        Primitive::Cdr => {
            if args.len() != 1 {
                return Err(RispErr::Arity { expected: 1, actual: args.len() });
            }
            let list = parse_single_list(&args[0])?;
            assert(vals[0] == Sexp::List(crate::risp_type::sexps(list)));
            assert(crate::risp_type::sexps(list) =~= slice_sexps(list@));
            native_cdr(list.as_slice())
        },
        Primitive::Nth => {
            if args.len() != 2 {
                return Err(RispErr::Arity { expected: 2, actual: args.len() });
            }
            let list = parse_single_list(&args[1])?;
            let idx = bits_to_index(parse_single_float(&args[0])?);
            assert(vals[1] == Sexp::List(crate::risp_type::sexps(list)));
            if idx < list.len() {
                Ok(list[idx].clone())
            } else {
                Ok(RispExp::Nil)
            }
        },
    }
}

/// The bindings of the root scope: the names of the built-in functions,
/// each bound to its function.
pub open spec fn standard_scope() -> Scope {
    seq![
        ("+"@, Sexp::Func(Primitive::Add)),
        ("-"@, Sexp::Func(Primitive::Subtract)),
        ("*"@, Sexp::Func(Primitive::Multiply)),
        ("/"@, Sexp::Func(Primitive::Divide)),
        ("="@, Sexp::Func(Primitive::Equal)),
        (">"@, Sexp::Func(Primitive::Greater)),
        ("<"@, Sexp::Func(Primitive::Less)),
        (">="@, Sexp::Func(Primitive::GreaterEqual)),
        ("<="@, Sexp::Func(Primitive::LessEqual)),
        ("list"@, Sexp::Func(Primitive::MakeList)),
        ("car"@, Sexp::Func(Primitive::Car)),
        ("cdr"@, Sexp::Func(Primitive::Cdr)),
        ("nth"@, Sexp::Func(Primitive::Nth)),
    ]
}

/// The root scope: it binds the names of the built-in functions, each to
/// its function, and nothing else; no scope encloses it.
pub fn standard_env<'a>() -> (env: RispEnv<'a>)
    ensures
        env.outer is None,
        env.bindings() == standard_scope(),
        env@ == seq![standard_scope()],
{
    let mut data: Vec<(String, RispExp)> = Vec::new();
    data.push(("+".to_string(), RispExp::Func(Primitive::Add)));
    data.push(("-".to_string(), RispExp::Func(Primitive::Subtract)));
    data.push(("*".to_string(), RispExp::Func(Primitive::Multiply)));
    data.push(("/".to_string(), RispExp::Func(Primitive::Divide)));
    data.push(("=".to_string(), RispExp::Func(Primitive::Equal)));
    data.push((">".to_string(), RispExp::Func(Primitive::Greater)));
    data.push(("<".to_string(), RispExp::Func(Primitive::Less)));
    data.push((">=".to_string(), RispExp::Func(Primitive::GreaterEqual)));
    data.push(("<=".to_string(), RispExp::Func(Primitive::LessEqual)));
    data.push(("list".to_string(), RispExp::Func(Primitive::MakeList)));
    data.push(("car".to_string(), RispExp::Func(Primitive::Car)));
    data.push(("cdr".to_string(), RispExp::Func(Primitive::Cdr)));
    data.push(("nth".to_string(), RispExp::Func(Primitive::Nth)));
    let env = RispEnv { data, outer: None };
    assert(env.bindings() =~= standard_scope());
    env
}

} // verus!
