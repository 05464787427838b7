//! Tree-walking evaluator: literals evaluate to themselves, symbols resolve
//! through the environment, and a list is a function application — its head
//! must resolve to a built-in function, which is applied to the evaluated
//! remaining elements, left to right, stopping at the first failure.
//!
//! The built-ins fold machine integers: `+` and `*` over all arguments from
//! their identities 0 and 1, `-` and `/` left-associatively from the first
//! argument, which they require.  A step that leaves the machine range
//! fails with an overflow error, and a zero divisor fails with a division
//! error, rather than wrapping or crashing.

use vstd::prelude::*;

use crate::env::LispEnv;
use crate::exp::{exps_view, Builtin, ExpV, LispExp};

verus! {

/// Error raised by the evaluator.
#[derive(Debug)]
pub enum EvalError {
    /// A symbol has no binding in the environment.
    NotFound(String),
    /// The head of an application did not resolve to a function.
    NotCallable,
    /// A function value was evaluated as a standalone expression.
    NotEvaluable,
    /// A built-in received a non-numeric argument.
    ExpectedNumber,
    /// A built-in that requires at least one argument received none.
    TooFewArguments,
    /// A division step had a zero divisor.
    DivisionByZero,
    /// An arithmetic step left the machine integer range.
    Overflow,
    /// An empty list was evaluated as an application.
    EmptyApplication,
}

/// The shape of an evaluator error.
pub enum EvalErrV {
    /// A symbol has no binding in the environment.
    NotFound(Seq<char>),
    /// The head of an application did not resolve to a function.
    NotCallable,
    /// A function value was evaluated as a standalone expression.
    NotEvaluable,
    /// A built-in received a non-numeric argument.
    ExpectedNumber,
    /// A built-in that requires at least one argument received none.
    TooFewArguments,
    /// A division step had a zero divisor.
    DivisionByZero,
    /// An arithmetic step left the machine integer range.
    Overflow,
    /// An empty list was evaluated as an application.
    EmptyApplication,
}

impl View for EvalError {
    type V = EvalErrV;

    open spec fn view(&self) -> EvalErrV {
        match self {
            EvalError::NotFound(n) => EvalErrV::NotFound(n@),
            EvalError::NotCallable => EvalErrV::NotCallable,
            EvalError::NotEvaluable => EvalErrV::NotEvaluable,
            EvalError::ExpectedNumber => EvalErrV::ExpectedNumber,
            EvalError::TooFewArguments => EvalErrV::TooFewArguments,
            EvalError::DivisionByZero => EvalErrV::DivisionByZero,
            EvalError::Overflow => EvalErrV::Overflow,
            EvalError::EmptyApplication => EvalErrV::EmptyApplication,
        }
    }
}

impl PartialEq for EvalError {
    /// Two errors are equal when they have the same shape.
    fn eq(&self, other: &EvalError) -> (r: bool)
        ensures
            r == (self@ == other@),
    {
        match (self, other) {
            (EvalError::NotFound(x), EvalError::NotFound(y)) => *x == *y,
            (EvalError::NotCallable, EvalError::NotCallable) => true,
            (EvalError::NotEvaluable, EvalError::NotEvaluable) => true,
            (EvalError::ExpectedNumber, EvalError::ExpectedNumber) => true,
            (EvalError::TooFewArguments, EvalError::TooFewArguments) => true,
            (EvalError::DivisionByZero, EvalError::DivisionByZero) => true,
            (EvalError::Overflow, EvalError::Overflow) => true,
            (EvalError::EmptyApplication, EvalError::EmptyApplication) => true,
            _ => false,
        }
    }
}

impl vstd::std_specs::cmp::PartialEqSpecImpl for EvalError {
    open spec fn obeys_eq_spec() -> bool {
        true
    }

    open spec fn eq_spec(&self, other: &EvalError) -> bool {
        self@ == other@
    }
}

/// A value within the machine integer range.
pub open spec fn in_i64(x: int) -> bool {
    i64::MIN <= x <= i64::MAX
}

/// Division truncated toward zero, as machine division performs it.
pub open spec fn div_trunc(x: int, d: int) -> int {
    if x == 0 {
        0
    } else if x > 0 && d > 0 {
        x / d
    } else if x < 0 && d < 0 {
        (x * -1) / (d * -1)
    } else if x < 0 {
        ((x * -1) / d) * -1
    } else {
        (x / (d * -1)) * -1
    }
}

/// Left fold of addition over `ns` from `acc`; a step that leaves the
/// machine range is an overflow error.
pub open spec fn fold_add(acc: int, ns: Seq<int>) -> Result<int, EvalErrV>
    decreases ns.len(),
{
    if ns.len() == 0 {
        Ok(acc)
    } else if in_i64(acc + ns[0]) {
        fold_add(acc + ns[0], ns.skip(1))
    } else {
        Err(EvalErrV::Overflow)
    }
}

/// Left fold of subtraction over `ns` from `acc`.
pub open spec fn fold_sub(acc: int, ns: Seq<int>) -> Result<int, EvalErrV>
    decreases ns.len(),
{
    if ns.len() == 0 {
        Ok(acc)
    } else if in_i64(acc - ns[0]) {
        fold_sub(acc - ns[0], ns.skip(1))
    } else {
        Err(EvalErrV::Overflow)
    }
}

/// Left fold of multiplication over `ns` from `acc`.
pub open spec fn fold_mul(acc: int, ns: Seq<int>) -> Result<int, EvalErrV>
    decreases ns.len(),
{
    if ns.len() == 0 {
        Ok(acc)
    } else if in_i64(acc * ns[0]) {
        fold_mul(acc * ns[0], ns.skip(1))
    } else {
        Err(EvalErrV::Overflow)
    }
}

/// Left fold of truncating division over `ns` from `acc`; a zero divisor is
/// a division error.
pub open spec fn fold_div(acc: int, ns: Seq<int>) -> Result<int, EvalErrV>
    decreases ns.len(),
{
    if ns.len() == 0 {
        Ok(acc)
    } else if ns[0] == 0 {
        Err(EvalErrV::DivisionByZero)
    } else if in_i64(div_trunc(acc, ns[0])) {
        fold_div(div_trunc(acc, ns[0]), ns.skip(1))
    } else {
        Err(EvalErrV::Overflow)
    }
}

/// All argument values are numbers.
pub open spec fn all_numbers(args: Seq<ExpV>) -> bool {
    forall|i: int| 0 <= i < args.len() ==> args[i] is Number
}

/// The numeric values of a sequence of number arguments.
pub open spec fn nums_of(args: Seq<ExpV>) -> Seq<int> {
    Seq::new(args.len(), |i: int| args[i]->Number_0)
}

/// What a built-in returns on a sequence of already-evaluated arguments.
pub open spec fn apply_builtin_spec(op: Builtin, args: Seq<ExpV>) -> Result<ExpV, EvalErrV> {
    if !all_numbers(args) {
        Err(EvalErrV::ExpectedNumber)
    } else {
        let ns = nums_of(args);
        let folded = match op {
            Builtin::Add => fold_add(0, ns),
            Builtin::Sub => if ns.len() == 0 {
                Err(EvalErrV::TooFewArguments)
            } else {
                fold_sub(ns[0], ns.skip(1))
            },
            Builtin::Mul => fold_mul(1, ns),
            Builtin::Div => if ns.len() == 0 {
                Err(EvalErrV::TooFewArguments)
            } else {
                fold_div(ns[0], ns.skip(1))
            },
        };
        match folded {
            Ok(n) => Ok(ExpV::Number(n)),
            Err(e) => Err(e),
        }
    }
}

/// What evaluating `e` under `env` yields: literals evaluate to themselves,
/// symbols resolve through `env`, a non-empty list applies its evaluated
/// head, and anything else is an error.
pub open spec fn eval_spec(e: ExpV, env: Map<Seq<char>, ExpV>) -> Result<ExpV, EvalErrV>
    decreases e, 0int,
    via eval_spec_decreases
{
    match e {
        ExpV::Bool(_) => Ok(e),
        ExpV::Number(_) => Ok(e),
        ExpV::Str(_) => Ok(e),
        ExpV::Symbol(name) => if env.contains_key(name) {
            Ok(env[name])
        } else {
            Err(EvalErrV::NotFound(name))
        },
        ExpV::Func(_) => Err(EvalErrV::NotEvaluable),
        ExpV::List(es) => if es.len() == 0 {
            Err(EvalErrV::EmptyApplication)
        } else {
            match eval_spec(es[0], env) {
                Err(er) => Err(er),
                Ok(head) => match head {
                    ExpV::Func(op) => match eval_args_spec(es, 1, env) {
                        Err(er) => Err(er),
                        Ok(vals) => apply_builtin_spec(op, vals),
                    },
                    _ => Err(EvalErrV::NotCallable),
                },
            }
        },
    }
}

/// The values of `es[i..]`, evaluated left to right under `env`, stopping
/// at the first failure.
pub open spec fn eval_args_spec(es: Seq<ExpV>, i: int, env: Map<Seq<char>, ExpV>) -> Result<
    Seq<ExpV>,
    EvalErrV,
>
    decreases es, es.len() - i, 1int,
{
    if i < 0 || i >= es.len() {
        Ok(Seq::empty())
    } else {
        match eval_spec(es[i], env) {
            Err(er) => Err(er),
            Ok(v) => match eval_args_spec(es, i + 1, env) {
                Err(er) => Err(er),
                Ok(vs) => Ok(seq![v] + vs),
            },
        }
    }
}

#[via_fn]
proof fn eval_spec_decreases(e: ExpV, env: Map<Seq<char>, ExpV>) {
    match e {
        ExpV::List(es) => {
            assert(decreases_to!(e => es));
            if es.len() > 0 {
                assert(decreases_to!(es => es[0]));
            }
        },
        _ => {},
    }
}

/// The outcome of an evaluation, as a shape.
pub open spec fn res_view(r: Result<LispExp, EvalError>) -> Result<ExpV, EvalErrV> {
    match r {
        Ok(e) => Ok(e@),
        Err(x) => Err(x@),
    }
}

/// Extracts the numeric value of every argument; any non-number argument
/// fails the whole extraction.
fn to_numbers(args: &Vec<LispExp>) -> (r: Result<Vec<i64>, EvalError>)
    ensures
        match r {
            Ok(ns) => {
                &&& all_numbers(args.deep_view())
                &&& ns@.len() == args.deep_view().len()
                &&& forall|i: int| 0 <= i < ns@.len() ==> ns@[i] as int == nums_of(args.deep_view())[i]
            },
            Err(e) => !all_numbers(args.deep_view()) && e@ == EvalErrV::ExpectedNumber,
        },
{
    let mut ns: Vec<i64> = Vec::new();
    let mut i: usize = 0;
    while i < args.len()
        invariant
            i <= args@.len(),
            ns@.len() == i,
            forall|k: int| 0 <= k < i ==> args.deep_view()[k] is Number,
            forall|k: int| 0 <= k < i ==> ns@[k] as int == nums_of(args.deep_view())[k],
        decreases args@.len() - i,
    {
        match &args[i] {
            LispExp::Number(n) => {
                ns.push(*n);
            },
            _ => {
                proof {
                    assert(!(args.deep_view()[i as int] is Number));
                }
                return Err(EvalError::ExpectedNumber);
            },
        }
        i = i + 1;
    }
    Ok(ns)
}

/// Applies a built-in operator to a sequence of already-evaluated arguments.
fn apply_builtin(op: Builtin, args: &Vec<LispExp>) -> (r: Result<LispExp, EvalError>)
    ensures
        res_view(r) == apply_builtin_spec(op, args.deep_view()),
{
    let ns = match to_numbers(args) {
        Ok(ns) => ns,
        Err(e) => {
            return Err(e);
        },
    };
    let ghost nsv = nums_of(args.deep_view());
    proof {
        assert(ns@.map_values(|x: i64| x as int) =~= nsv);
    }
    match op {
        Builtin::Add => {
            let mut acc: i64 = 0;
            let mut i: usize = 0;
            proof {
                assert(nsv.skip(0) =~= nsv);
            }
            while i < ns.len()
                invariant
                    i <= ns@.len(),
                    op == Builtin::Add,
                    all_numbers(args.deep_view()),
                    nsv == nums_of(args.deep_view()),
                    ns@.map_values(|x: i64| x as int) == nsv,
                    fold_add(0, nsv) == fold_add(acc as int, nsv.skip(i as int)),
                decreases ns@.len() - i,
            {
                proof {
                    assert(nsv.skip(i as int)[0] == nsv[i as int]);
                    assert(nsv.skip(i as int).skip(1) =~= nsv.skip(i + 1));
                }
                acc = match acc.checked_add(ns[i]) {
                    Some(a) => a,
                    None => {
                        return Err(EvalError::Overflow);
                    },
                };
                i = i + 1;
            }
            proof {
                assert(nsv.skip(ns@.len() as int) =~= Seq::<int>::empty());
            }
            Ok(LispExp::Number(acc))
        },
        Builtin::Mul => {
            let mut acc: i64 = 1;
            let mut i: usize = 0;
            proof {
                assert(nsv.skip(0) =~= nsv);
            }
            while i < ns.len()
                invariant
                    i <= ns@.len(),
                    op == Builtin::Mul,
                    all_numbers(args.deep_view()),
                    nsv == nums_of(args.deep_view()),
                    ns@.map_values(|x: i64| x as int) == nsv,
                    fold_mul(1, nsv) == fold_mul(acc as int, nsv.skip(i as int)),
                decreases ns@.len() - i,
            {
                proof {
                    assert(nsv.skip(i as int)[0] == nsv[i as int]);
                    assert(nsv.skip(i as int).skip(1) =~= nsv.skip(i + 1));
                }
                acc = match acc.checked_mul(ns[i]) {
                    Some(a) => a,
                    None => {
                        return Err(EvalError::Overflow);
                    },
                };
                i = i + 1;
            }
            proof {
                assert(nsv.skip(ns@.len() as int) =~= Seq::<int>::empty());
            }
            Ok(LispExp::Number(acc))
        },
        Builtin::Sub => {
            if ns.len() == 0 {
                return Err(EvalError::TooFewArguments);
            }
            let mut acc: i64 = ns[0];
            let mut i: usize = 1;
            while i < ns.len()
                invariant
                    1 <= i <= ns@.len(),
                    op == Builtin::Sub,
                    all_numbers(args.deep_view()),
                    nsv == nums_of(args.deep_view()),
                    ns@.map_values(|x: i64| x as int) == nsv,
                    fold_sub(nsv[0], nsv.skip(1)) == fold_sub(acc as int, nsv.skip(i as int)),
                decreases ns@.len() - i,
            {
                proof {
                    assert(nsv.skip(i as int)[0] == nsv[i as int]);
                    assert(nsv.skip(i as int).skip(1) =~= nsv.skip(i + 1));
                }
                acc = match acc.checked_sub(ns[i]) {
                    Some(a) => a,
                    None => {
                        return Err(EvalError::Overflow);
                    },
                };
                i = i + 1;
            }
            proof {
                assert(nsv.skip(ns@.len() as int) =~= Seq::<int>::empty());
            }
            Ok(LispExp::Number(acc))
        },
        Builtin::Div => {
            if ns.len() == 0 {
                return Err(EvalError::TooFewArguments);
            }
            let mut acc: i64 = ns[0];
            let mut i: usize = 1;
            while i < ns.len()
                invariant
                    1 <= i <= ns@.len(),
                    op == Builtin::Div,
                    all_numbers(args.deep_view()),
                    nsv == nums_of(args.deep_view()),
                    ns@.map_values(|x: i64| x as int) == nsv,
                    fold_div(nsv[0], nsv.skip(1)) == fold_div(acc as int, nsv.skip(i as int)),
                decreases ns@.len() - i,
            {
                proof {
                    assert(nsv.skip(i as int)[0] == nsv[i as int]);
                    assert(nsv.skip(i as int).skip(1) =~= nsv.skip(i + 1));
                }
                let d = ns[i];
                acc = match acc.checked_div(d) {
                    Some(a) => a,
                    None => {
                        if d == 0 {
                            return Err(EvalError::DivisionByZero);
                        }
                        return Err(EvalError::Overflow);
                    },
                };
                i = i + 1;
            }
            proof {
                assert(nsv.skip(ns@.len() as int) =~= Seq::<int>::empty());
            }
            Ok(LispExp::Number(acc))
        },
    }
}

/// Evaluates `node` under `env`: literals evaluate to themselves, symbols
/// resolve through `env`, and a non-empty list applies its evaluated head to
/// its evaluated remaining elements, left to right, stopping at the first
/// failure.
pub fn semantic_analysis(node: &LispExp, env: &LispEnv) -> (r: Result<LispExp, EvalError>)
    ensures
        res_view(r) == eval_spec(node@, env@),
    decreases node,
{
    match node {
        LispExp::Bool(_) => Ok(node.clone()),
        LispExp::Number(_) => Ok(node.clone()),
        LispExp::Str(_) => Ok(node.clone()),
        LispExp::Symbol(name) => match env.lookup(name) {
            Some(v) => Ok(v),
            None => Err(EvalError::NotFound(name.clone())),
        },
        LispExp::Func(_) => Err(EvalError::NotEvaluable),
        LispExp::List(v) => {
            let ghost es = exps_view(v@);
            if v.len() == 0 {
                return Err(EvalError::EmptyApplication);
            }
            proof {
                assert(decreases_to!(*node => v@[0])) by {
                    match *node {
                        LispExp::List(inner) => {
                            assert(decreases_to!(*node => inner));
                            assert(inner == *v);
                            assert(decreases_to!(inner => inner@));
                        },
                        _ => {},
                    }
                }
            }
            let head = match semantic_analysis(&v[0], env) {
                Ok(h) => h,
                Err(e) => {
                    return Err(e);
                },
            };
            let ghost headv = head@;
            let op = match head {
                LispExp::Func(op) => op,
                _ => {
                    return Err(EvalError::NotCallable);
                },
            };
            proof {
                assert(node@ == ExpV::List(es));
                assert(eval_spec(es[0], env@) == Ok::<ExpV, EvalErrV>(headv));
                assert(headv == ExpV::Func(op));
            }
            let mut vals: Vec<LispExp> = Vec::new();
            let mut i: usize = 1;
            proof {
                assert(Seq::<ExpV>::empty() + eval_args_spec(es, 1, env@)->Ok_0 =~= eval_args_spec(
                    es,
                    1,
                    env@,
                )->Ok_0);
            }
            while i < v.len()
                invariant
                    1 <= i <= v@.len(),
                    *node == LispExp::List(*v),
                    es == exps_view(v@),
                    es.len() == v@.len(),
                    eval_spec(node@, env@) == (match eval_args_spec(es, 1, env@) {
                        Ok(vals0) => apply_builtin_spec(op, vals0),
                        Err(er) => Err::<ExpV, EvalErrV>(er),
                    }),
                    eval_args_spec(es, 1, env@) == (match eval_args_spec(es, i as int, env@) {
                        Ok(rest) => Ok(vals.deep_view() + rest),
                        Err(er) => Err::<Seq<ExpV>, EvalErrV>(er),
                    }),
                decreases v@.len() - i,
            {
                proof {
                    assert(decreases_to!(*node => v@[i as int])) by {
                        match *node {
                            LispExp::List(inner) => {
                                assert(decreases_to!(*node => inner));
                                assert(inner == *v);
                                assert(decreases_to!(inner => inner@));
                            },
                            _ => {},
                        }
                    }
                }
                let ghost prevvals = vals.deep_view();
                let w = match semantic_analysis(&v[i], env) {
                    Ok(w) => w,
                    Err(e) => {
                        return Err(e);
                    },
                };
                vals.push(w);
                i = i + 1;
                proof {
                    assert(vals.deep_view() =~= prevvals.push(w@));
                    if eval_args_spec(es, i as int, env@) is Ok {
                        assert(prevvals + (seq![w@] + eval_args_spec(es, i as int, env@)->Ok_0)
                            =~= vals.deep_view() + eval_args_spec(es, i as int, env@)->Ok_0);
                    }
                }
            }
            proof {
                assert(eval_args_spec(es, v@.len() as int, env@) == Ok::<Seq<ExpV>, EvalErrV>(
                    Seq::empty(),
                ));
                assert(vals.deep_view() + Seq::<ExpV>::empty() =~= vals.deep_view());
                assert(eval_args_spec(es, 1, env@) == Ok::<Seq<ExpV>, EvalErrV>(vals.deep_view()));
            }
            apply_builtin(op, &vals)
        },
    }
}

} // verus!
