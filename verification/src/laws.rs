//! The laws that hold of the pipeline as a whole.
//!
//! A well-formed parenthesized arithmetic expression — numeric literals and
//! the four operators, correctly nested — is modelled as a tree.  The main
//! law states that tokenizing, parsing and evaluating the text of such a
//! tree yields exactly the number that standard left-to-right,
//! left-associative arithmetic assigns to it; two further laws state that
//! the order of the arguments of `+` and `*` cannot change the result.

use vstd::prelude::*;

use crate::eval::{
    eval_args_spec, eval_spec, fold_add, fold_div, fold_mul, fold_sub, EvalErrV,
};
use crate::exp::{Builtin, ExpV};
use crate::lexer::{spec_is_empty_char, spec_is_paren, spec_tokenize, tok_concat};
use crate::parser::{all_digits, digits_val, is_digit, parse_run, spec_parse};

verus! {

/// A parenthesized arithmetic expression: a numeric literal, given by its
/// digits, or an operator applied to arguments.
pub enum ArithE {
    /// A numeric literal, as the digits of its token.
    Lit(Seq<char>),
    /// An application of one of the four operators.
    App(Builtin, Seq<ArithE>),
}

/// A well-formed arithmetic expression: every literal is a non-empty run of
/// digits denoting a machine-representable number.
pub open spec fn arith_wf(a: ArithE) -> bool
    decreases a, 1int,
    via arith_wf_decreases
{
    match a {
        ArithE::Lit(t) => t.len() > 0 && all_digits(t) && digits_val(t) <= i64::MAX,
        ArithE::App(op, args) => args_wf(args, 0),
    }
}

/// Well-formedness of every expression of `args[i..]`.
pub open spec fn args_wf(args: Seq<ArithE>, i: int) -> bool
    decreases args, args.len() - i, 0int,
    via args_wf_decreases
{
    if i < 0 || i >= args.len() {
        true
    } else {
        arith_wf(args[i]) && args_wf(args, i + 1)
    }
}

#[via_fn]
proof fn arith_wf_decreases(a: ArithE) {
    match a {
        ArithE::App(op, args) => {
            assert(decreases_to!(a => args));
        },
        _ => {},
    }
}

#[via_fn]
proof fn args_wf_decreases(args: Seq<ArithE>, i: int) {
    if 0 <= i < args.len() {
        assert(decreases_to!(args => args[i]));
    }
}

proof fn lemma_args_wf_index(args: Seq<ArithE>, i: int, j: int)
    requires
        args_wf(args, i),
        0 <= i <= j < args.len(),
    ensures
        arith_wf(args[j]),
    decreases j - i,
{
    if i < j {
        lemma_args_wf_index(args, i + 1, j);
    }
}

/// The value of an arithmetic expression under standard left-to-right,
/// left-associative rules: `+` and `*` fold all argument values from their
/// identities 0 and 1, `-` and `/` fold from the first argument.
pub open spec fn arith_val(a: ArithE) -> Result<int, EvalErrV>
    decreases a, 1int,
    via arith_val_decreases
{
    match a {
        ArithE::Lit(t) => Ok(digits_val(t)),
        ArithE::App(op, args) => match arith_vals(args, 0) {
            Err(e) => Err(e),
            Ok(ns) => match op {
                Builtin::Add => fold_add(0, ns),
                Builtin::Sub => if ns.len() == 0 {
                    Err(EvalErrV::TooFewArguments)
                } else {
                    fold_sub(ns[0], ns.skip(1))
                },
                Builtin::Mul => fold_mul(1, ns),
                Builtin::Div => if ns.len() == 0 {
                    Err(EvalErrV::TooFewArguments)
                } else {
                    fold_div(ns[0], ns.skip(1))
                },
            },
        },
    }
}

/// The values of `args[i..]`, stopping at the first failure.
pub open spec fn arith_vals(args: Seq<ArithE>, i: int) -> Result<Seq<int>, EvalErrV>
    decreases args, args.len() - i, 0int,
    via arith_vals_decreases
{
    if i < 0 || i >= args.len() {
        Ok(Seq::empty())
    } else {
        match arith_val(args[i]) {
            Err(e) => Err(e),
            Ok(v) => match arith_vals(args, i + 1) {
                Err(e) => Err(e),
                Ok(vs) => Ok(seq![v] + vs),
            },
        }
    }
}

#[via_fn]
proof fn arith_val_decreases(a: ArithE) {
    match a {
        ArithE::App(op, args) => {
            assert(decreases_to!(a => args));
        },
        _ => {},
    }
}

#[via_fn]
proof fn arith_vals_decreases(args: Seq<ArithE>, i: int) {
    if 0 <= i < args.len() {
        assert(decreases_to!(args => args[i]));
    }
}

/// The operator character of a built-in.
pub open spec fn op_char(op: Builtin) -> char {
    match op {
        Builtin::Add => '+',
        Builtin::Sub => '-',
        Builtin::Mul => '*',
        Builtin::Div => '/',
    }
}

/// The expression tree that parsing the text of `a` builds.
pub open spec fn arith_expv(a: ArithE) -> ExpV
    decreases a, 1int,
    via arith_expv_decreases
{
    match a {
        ArithE::Lit(t) => ExpV::Number(digits_val(t)),
        ArithE::App(op, args) => ExpV::List(
            seq![ExpV::Symbol(seq![op_char(op)])] + arith_expvs(args),
        ),
    }
}

/// The expression trees of a sequence of arithmetic expressions.
pub open spec fn arith_expvs(args: Seq<ArithE>) -> Seq<ExpV>
    decreases args, 0int,
{
    Seq::new(
        args.len(),
        |i: int|
            if 0 <= i < args.len() {
                arith_expv(args[i])
            } else {
                ExpV::Bool(false)
            },
    )
}

#[via_fn]
proof fn arith_expv_decreases(a: ArithE) {
    match a {
        ArithE::App(op, args) => {
            assert(decreases_to!(a => args));
        },
        _ => {},
    }
}

/// The surface text of an arithmetic expression: literals stand as they
/// are, and an application is the operator and its arguments, separated by
/// spaces, inside one pair of parentheses.
pub open spec fn arith_text(a: ArithE) -> Seq<char>
    decreases a, 1int,
    via arith_text_decreases
{
    match a {
        ArithE::Lit(t) => t,
        ArithE::App(op, args) => seq!['(', op_char(op)] + args_text(args, 0) + seq![')'],
    }
}

/// The text of `args[i..]`, each argument preceded by one space.
pub open spec fn args_text(args: Seq<ArithE>, i: int) -> Seq<char>
    decreases args, args.len() - i, 0int,
    via args_text_decreases
{
    if i < 0 || i >= args.len() {
        Seq::empty()
    } else {
        seq![' '] + arith_text(args[i]) + args_text(args, i + 1)
    }
}

#[via_fn]
proof fn arith_text_decreases(a: ArithE) {
    match a {
        ArithE::App(op, args) => {
            assert(decreases_to!(a => args));
        },
        _ => {},
    }
}

#[via_fn]
proof fn args_text_decreases(args: Seq<ArithE>, i: int) {
    if 0 <= i < args.len() {
        assert(decreases_to!(args => args[i]));
    }
}

/// The token sequence of an arithmetic expression.
pub open spec fn arith_tokens(a: ArithE) -> Seq<Seq<char>>
    decreases a, 1int,
    via arith_tokens_decreases
{
    match a {
        ArithE::Lit(t) => seq![t],
        ArithE::App(op, args) => seq![seq!['('], seq![op_char(op)]] + args_tokens(args, 0)
            + seq![seq![')']],
    }
}

/// The tokens of `args[i..]`.
pub open spec fn args_tokens(args: Seq<ArithE>, i: int) -> Seq<Seq<char>>
    decreases args, args.len() - i, 0int,
    via args_tokens_decreases
{
    if i < 0 || i >= args.len() {
        Seq::empty()
    } else {
        arith_tokens(args[i]) + args_tokens(args, i + 1)
    }
}

#[via_fn]
proof fn arith_tokens_decreases(a: ArithE) {
    match a {
        ArithE::App(op, args) => {
            assert(decreases_to!(a => args));
        },
        _ => {},
    }
}

#[via_fn]
proof fn args_tokens_decreases(args: Seq<ArithE>, i: int) {
    if 0 <= i < args.len() {
        assert(decreases_to!(args => args[i]));
    }
}

/// The evaluated arguments of an application: each argument's number.
pub open spec fn arith_nums(args: Seq<ArithE>) -> Seq<ExpV> {
    Seq::new(args.len(), |i: int| ExpV::Number(arith_val(args[i])->Ok_0))
}

/// `env` binds the four operator symbols to the built-ins.
pub open spec fn has_builtins(env: Map<Seq<char>, ExpV>) -> bool {
    &&& env.contains_key(seq!['+']) && env[seq!['+']] == ExpV::Func(Builtin::Add)
    &&& env.contains_key(seq!['-']) && env[seq!['-']] == ExpV::Func(Builtin::Sub)
    &&& env.contains_key(seq!['*']) && env[seq!['*']] == ExpV::Func(Builtin::Mul)
    &&& env.contains_key(seq!['/']) && env[seq!['/']] == ExpV::Func(Builtin::Div)
}

/// Seeding any environment with the built-ins binds the four operators.
pub proof fn lemma_with_builtins_has(m: Map<Seq<char>, ExpV>)
    ensures
        has_builtins(crate::env::with_builtins(m)),
{
    reveal_strlit("+");
    reveal_strlit("-");
    reveal_strlit("*");
    reveal_strlit("/");
    assert("+"@ =~= seq!['+']);
    assert("-"@ =~= seq!['-']);
    assert("*"@ =~= seq!['*']);
    assert("/"@ =~= seq!['/']);
    assert(seq!['+'][0] == '+' && seq!['-'][0] == '-' && seq!['*'][0] == '*' && seq!['/'][0]
        == '/');
}

proof fn lemma_arith_vals_props(args: Seq<ArithE>, i: int)
    requires
        0 <= i <= args.len(),
        arith_vals(args, i) is Ok,
    ensures
        arith_vals(args, i)->Ok_0.len() == args.len() - i,
        forall|j: int| i <= j < args.len() ==> #[trigger] arith_val(args[j]) is Ok,
        forall|j: int|
            i <= j < args.len() ==> arith_vals(args, i)->Ok_0[j - i] == arith_val(args[j])->Ok_0,
    decreases args.len() - i,
{
    if i < args.len() {
        lemma_arith_vals_props(args, i + 1);
    }
}

/// Evaluating the tree of a well-valued arithmetic expression, under an
/// environment that binds the four operators, yields exactly its value.
pub proof fn lemma_eval_arith(a: ArithE, env: Map<Seq<char>, ExpV>)
    requires
        has_builtins(env),
        arith_val(a) is Ok,
    ensures
        eval_spec(arith_expv(a), env) == Ok::<ExpV, EvalErrV>(
            ExpV::Number(arith_val(a)->Ok_0),
        ),
    decreases a, 1int,
{
    match a {
        ArithE::Lit(t) => {},
        ArithE::App(op, args) => {
            let es = seq![ExpV::Symbol(seq![op_char(op)])] + arith_expvs(args);
            let k = seq![op_char(op)];
            assert(arith_expv(a) == ExpV::List(es));
            assert(es[0] == ExpV::Symbol(k));
            match op {
                Builtin::Add => assert(env.contains_key(k) && env[k] == ExpV::Func(op)),
                Builtin::Sub => assert(env.contains_key(k) && env[k] == ExpV::Func(op)),
                Builtin::Mul => assert(env.contains_key(k) && env[k] == ExpV::Func(op)),
                Builtin::Div => assert(env.contains_key(k) && env[k] == ExpV::Func(op)),
            }
            assert(eval_spec(es[0], env) == Ok::<ExpV, EvalErrV>(ExpV::Func(op)));
            lemma_arith_vals_props(args, 0);
            assert(decreases_to!(a => args));
            lemma_eval_args(args, 1, es, env);
            assert(arith_nums(args).skip(0) =~= arith_nums(args));
            let vals0 = arith_vals(args, 0)->Ok_0;
            assert(crate::eval::nums_of(arith_nums(args)) =~= vals0);
            assert(crate::eval::all_numbers(arith_nums(args)));
            assert(eval_spec(arith_expv(a), env) == crate::eval::apply_builtin_spec(
                op,
                arith_nums(args),
            ));
        },
    }
}

proof fn lemma_eval_args(args: Seq<ArithE>, i: int, es: Seq<ExpV>, env: Map<Seq<char>, ExpV>)
    requires
        has_builtins(env),
        1 <= i <= es.len(),
        es.len() == args.len() + 1,
        forall|k: int| 1 <= k < es.len() ==> es[k] == arith_expv(args[k - 1]),
        forall|j: int| 0 <= j < args.len() ==> #[trigger] arith_val(args[j]) is Ok,
    ensures
        eval_args_spec(es, i, env) == Ok::<Seq<ExpV>, EvalErrV>(arith_nums(args).skip(i - 1)),
    decreases args, es.len() - i, 0int,
{
    if i < es.len() {
        assert(decreases_to!(args => args[i - 1]));
        lemma_eval_arith(args[i - 1], env);
        lemma_eval_args(args, i + 1, es, env);
        assert(seq![ExpV::Number(arith_val(args[i - 1])->Ok_0)] + arith_nums(args).skip(i)
            =~= arith_nums(args).skip(i - 1));
    } else {
        assert(arith_nums(args).skip(i - 1) =~= Seq::<ExpV>::empty());
    }
}

/// Parsing the tokens of a well-formed arithmetic expression builds exactly
/// its tree: it is returned when no list is open, and joins the innermost
/// open list otherwise.
pub proof fn lemma_parse_arith(a: ArithE, rest: Seq<Seq<char>>, stack: Seq<Seq<ExpV>>)
    requires
        arith_wf(a),
    ensures
        parse_run(arith_tokens(a) + rest, stack) == (if stack.len() == 0 {
            (Ok::<ExpV, crate::parser::ParseError>(arith_expv(a)), rest)
        } else {
            parse_run(rest, stack.update(stack.len() - 1, stack.last().push(arith_expv(a))))
        }),
    decreases a, 1int,
{
    match a {
        ArithE::Lit(t) => {
            let ts = arith_tokens(a) + rest;
            assert(ts[0] == t);
            assert(seq!['('][0] == '(' && seq![')'][0] == ')');
            assert(is_digit(t[0]));
            assert(t != seq!['('] && t != seq![')']);
            assert(crate::parser::is_number_token(t));
            assert(crate::parser::classify(t) == Ok::<ExpV, crate::parser::ParseError>(
                arith_expv(a),
            ));
            assert(ts.skip(1) =~= rest);
            if stack.len() == 0 {
                assert(parse_run(ts, stack) == (
                    Ok::<ExpV, crate::parser::ParseError>(arith_expv(a)),
                    ts.skip(1),
                ));
            } else {
                assert(parse_run(ts, stack) == parse_run(
                    ts.skip(1),
                    stack.update(stack.len() - 1, stack.last().push(arith_expv(a))),
                ));
            }
        },
        ArithE::App(op, args) => {
            let k = seq![op_char(op)];
            let es = seq![ExpV::Symbol(k)] + arith_expvs(args);
            let ts = arith_tokens(a) + rest;
            let rest2 = seq![k] + args_tokens(args, 0) + seq![seq![')']] + rest;
            assert(ts[0] == seq!['(']);
            assert(ts.skip(1) =~= rest2);
            // the operator token is a symbol
            let stack1 = stack.push(Seq::<ExpV>::empty());
            assert(rest2[0] == k);
            assert(k[0] == op_char(op));
            assert(seq!['('][0] == '(' && seq![')'][0] == ')' && seq!['"'][0] == '"');
            assert((op_char(op) as u32) < 48) by {
                match op {
                    Builtin::Add => assert(op_char(op) == '+'),
                    Builtin::Sub => assert(op_char(op) == '-'),
                    Builtin::Mul => assert(op_char(op) == '*'),
                    Builtin::Div => assert(op_char(op) == '/'),
                }
            }
            assert(!crate::parser::is_number_token(k));
            assert(k != seq!['('] && k != seq![')']);
            assert(k[0] != '"');
            assert(crate::parser::classify(k) == Ok::<ExpV, crate::parser::ParseError>(
                ExpV::Symbol(k),
            ));
            let rest3 = args_tokens(args, 0) + seq![seq![')']] + rest;
            assert(rest2.skip(1) =~= rest3);
            let stack2 = stack.push(seq![ExpV::Symbol(k)]);
            assert(stack1.update(stack1.len() - 1, stack1.last().push(ExpV::Symbol(k)))
                =~~= stack2);
            assert(parse_run(ts, stack) == parse_run(rest2, stack1));
            assert(parse_run(rest2, stack1) == parse_run(rest3, stack2));
            // the arguments join the innermost list one after the other
            assert(decreases_to!(a => args));
            lemma_parse_args(args, 0, seq![seq![')']] + rest, stack2);
            assert(rest3 =~= args_tokens(args, 0) + (seq![seq![')']] + rest));
            let stack3 = stack2.update(
                stack2.len() - 1,
                stack2.last() + arith_expvs(args).skip(0),
            );
            assert(stack3.last() =~= es);
            // the closing parenthesis finishes the list
            let rest4 = seq![seq![')']] + rest;
            assert(rest4[0] == seq![')']);
            assert(rest4.skip(1) =~= rest);
            assert(stack3.len() == stack.len() + 1);
            if stack.len() == 0 {
                assert(parse_run(rest4, stack3) == (
                    Ok::<ExpV, crate::parser::ParseError>(ExpV::List(stack3.last())),
                    rest,
                ));
                assert(ExpV::List(stack3.last()) == arith_expv(a));
            } else {
                assert(stack3.drop_last().update(
                    stack3.len() - 2,
                    stack3[stack3.len() - 2].push(ExpV::List(stack3.last())),
                ) =~~= stack.update(stack.len() - 1, stack.last().push(arith_expv(a))));
            }
        },
    }
}

proof fn lemma_parse_args(args: Seq<ArithE>, i: int, rest: Seq<Seq<char>>, stack: Seq<Seq<ExpV>>)
    requires
        args_wf(args, 0),
        0 <= i <= args.len(),
        stack.len() >= 1,
    ensures
        parse_run(args_tokens(args, i) + rest, stack) == parse_run(
            rest,
            stack.update(stack.len() - 1, stack.last() + arith_expvs(args).skip(i)),
        ),
    decreases args, args.len() - i, 0int,
{
    if i < args.len() {
        assert(args_tokens(args, i) + rest =~= arith_tokens(args[i]) + (args_tokens(args, i + 1)
            + rest));
        assert(decreases_to!(args => args[i]));
        lemma_args_wf_index(args, 0, i);
        lemma_parse_arith(args[i], args_tokens(args, i + 1) + rest, stack);
        let stack2 = stack.update(stack.len() - 1, stack.last().push(arith_expv(args[i])));
        lemma_parse_args(args, i + 1, rest, stack2);
        assert(stack2.update(stack2.len() - 1, stack2.last() + arith_expvs(args).skip(i + 1))
            =~~= stack.update(stack.len() - 1, stack.last() + arith_expvs(args).skip(i)));
    } else {
        assert(args_tokens(args, i) + rest =~= rest);
        assert(stack.update(stack.len() - 1, stack.last() + arith_expvs(args).skip(i))
            =~~= stack);
    }
}

/// Tokenizing the text of a well-formed arithmetic expression, followed by
/// text that is empty or opens with a delimiter, yields exactly its tokens
/// followed by the tokens of that text.
pub proof fn lemma_tokenize_arith(a: ArithE, rest: Seq<char>)
    requires
        arith_wf(a),
        rest.len() == 0 || spec_is_empty_char(rest[0]) || spec_is_paren(rest[0]),
    ensures
        spec_tokenize(arith_text(a) + rest) == tok_concat(arith_tokens(a), spec_tokenize(rest)),
    decreases a, 1int,
{
    match a {
        ArithE::Lit(t) => {
            let s = t + rest;
            assert forall|k: int| 0 <= k < t.len() implies !spec_is_empty_char(s[k])
                && !spec_is_paren(s[k]) by {
                assert(s[k] == t[k]);
                assert(is_digit(t[k]));
            }
            if (t.len() as int) < s.len() {
                assert(s[t.len() as int] == rest[0]);
            }
            crate::lexer::lemma_sym_len_at(s, t.len() as int);
            assert(s[0] == t[0] && is_digit(t[0]));
            assert(s.take(t.len() as int) =~= t);
            assert(s.skip(t.len() as int) =~= rest);
            assert(spec_tokenize(s) == crate::lexer::tok_cons(t, spec_tokenize(rest)));
            if spec_tokenize(rest) is Some {
                assert(seq![t] + spec_tokenize(rest)->Some_0 =~= seq![t] + spec_tokenize(
                    rest,
                )->Some_0);
            }
        },
        ArithE::App(op, args) => {
            let rest1 = args_text(args, 0) + (seq![')'] + rest);
            let t1 = seq![op_char(op)] + rest1;
            let text = arith_text(a) + rest;
            assert(text[0] == '(');
            assert(text.skip(1) =~= t1);
            assert(spec_tokenize(text) == crate::lexer::tok_cons(seq!['('], spec_tokenize(t1)));
            // the operator is one single-character symbol token
            assert((op_char(op) as u32) != 32 && (op_char(op) as u32) != 10 && (op_char(op)
                as u32) != 9 && (op_char(op) as u32) != 40 && (op_char(op) as u32) != 41 && (
            op_char(op) as u32) != 34 && (op_char(op) as u32) < 48) by {
                match op {
                    Builtin::Add => assert(op_char(op) == '+'),
                    Builtin::Sub => assert(op_char(op) == '-'),
                    Builtin::Mul => assert(op_char(op) == '*'),
                    Builtin::Div => assert(op_char(op) == '/'),
                }
            }
            assert(t1[0] == op_char(op));
            assert(rest1.len() > 0);
            if args.len() == 0 {
                assert(args_text(args, 0) =~= Seq::<char>::empty());
                assert(rest1 =~= seq![')'] + rest);
                assert(rest1[0] == ')');
            } else {
                assert(rest1[0] == ' ');
            }
            assert(t1[1] == rest1[0]);
            crate::lexer::lemma_sym_len_at(t1, 1);
            assert(t1.take(1) =~= seq![op_char(op)]);
            assert(t1.skip(1) =~= rest1);
            assert(spec_tokenize(t1) == crate::lexer::tok_cons(
                seq![op_char(op)],
                spec_tokenize(rest1),
            ));
            // the arguments, then the closing parenthesis
            assert(decreases_to!(a => args));
            lemma_tokenize_args(args, 0, seq![')'] + rest);
            let rest2 = seq![')'] + rest;
            assert(rest2[0] == ')');
            assert(rest2.skip(1) =~= rest);
            assert(spec_tokenize(rest2) == crate::lexer::tok_cons(seq![')'], spec_tokenize(rest)));
            // assemble the token sequence
            if spec_tokenize(rest) is Some {
                let r = spec_tokenize(rest)->Some_0;
                assert(seq![seq!['(']] + (seq![seq![op_char(op)]] + (args_tokens(args, 0) + (
                seq![seq![')']] + r))) =~= arith_tokens(a) + r);
            }
        },
    }
}

proof fn lemma_tokenize_args(args: Seq<ArithE>, i: int, rest: Seq<char>)
    requires
        args_wf(args, 0),
        0 <= i <= args.len(),
        rest.len() > 0,
        spec_is_paren(rest[0]),
    ensures
        spec_tokenize(args_text(args, i) + rest) == tok_concat(
            args_tokens(args, i),
            spec_tokenize(rest),
        ),
    decreases args, args.len() - i, 0int,
{
    if i < args.len() {
        let tail = args_text(args, i + 1) + rest;
        let inner = arith_text(args[i]) + tail;
        let s = args_text(args, i) + rest;
        assert(s =~= seq![' '] + inner);
        assert(s[0] == ' ');
        assert(s.skip(1) =~= inner);
        assert(spec_tokenize(s) == spec_tokenize(inner));
        if i + 1 < args.len() {
            assert(tail[0] == ' ');
        } else {
            assert(args_text(args, i + 1) =~= Seq::<char>::empty());
            assert(tail =~= rest);
        }
        lemma_args_wf_index(args, 0, i);
        assert(decreases_to!(args => args[i]));
        lemma_tokenize_arith(args[i], tail);
        lemma_tokenize_args(args, i + 1, rest);
        if spec_tokenize(rest) is Some {
            let r = spec_tokenize(rest)->Some_0;
            assert(arith_tokens(args[i]) + (args_tokens(args, i + 1) + r) =~= args_tokens(
                args,
                i,
            ) + r);
        }
    } else {
        assert(args_text(args, i) + rest =~= rest);
        if spec_tokenize(rest) is Some {
            assert(args_tokens(args, i) + spec_tokenize(rest)->Some_0 =~= spec_tokenize(
                rest,
            )->Some_0);
        }
    }
}

/// For every well-formed parenthesized arithmetic expression whose standard
/// left-to-right, left-associative evaluation succeeds, running the whole
/// pipeline — tokenize, parse, evaluate — on its text, under an environment
/// that binds the four operators, yields exactly that number.
pub proof fn lemma_arith_pipeline(a: ArithE, env: Map<Seq<char>, ExpV>)
    requires
        arith_wf(a),
        arith_val(a) is Ok,
        has_builtins(env),
    ensures
        crate::spec_eval_str(arith_text(a), env) == Ok::<ExpV, crate::InterpErrV>(
            ExpV::Number(arith_val(a)->Ok_0),
        ),
{
    lemma_tokenize_arith(a, Seq::empty());
    assert(arith_text(a) + Seq::<char>::empty() =~= arith_text(a));
    assert(spec_tokenize(Seq::<char>::empty()) == Some(Seq::<Seq<char>>::empty()));
    assert(arith_tokens(a) + Seq::<Seq<char>>::empty() =~= arith_tokens(a));
    assert(spec_tokenize(arith_text(a)) == Some(arith_tokens(a)));
    match a {
        ArithE::Lit(t) => assert(arith_tokens(a).len() > 0),
        ArithE::App(op, args) => assert(arith_tokens(a).len() > 0),
    }
    lemma_parse_arith(a, Seq::empty(), Seq::empty());
    assert(spec_parse(arith_tokens(a)) == (
        Ok::<ExpV, crate::parser::ParseError>(arith_expv(a)),
        Seq::<Seq<char>>::empty(),
    ));
    lemma_eval_arith(a, env);
}

/// The sum of a sequence of values.
pub open spec fn sum_of(ns: Seq<int>) -> int
    decreases ns.len(),
{
    if ns.len() == 0 {
        0
    } else {
        ns[0] + sum_of(ns.skip(1))
    }
}

/// The product of a sequence of values.
pub open spec fn prod_of(ns: Seq<int>) -> int
    decreases ns.len(),
{
    if ns.len() == 0 {
        1
    } else {
        ns[0] * prod_of(ns.skip(1))
    }
}

proof fn lemma_fold_add_sum(acc: int, ns: Seq<int>)
    requires
        fold_add(acc, ns) is Ok,
    ensures
        fold_add(acc, ns)->Ok_0 == acc + sum_of(ns),
    decreases ns.len(),
{
    if ns.len() > 0 {
        lemma_fold_add_sum(acc + ns[0], ns.skip(1));
    }
}

proof fn lemma_fold_mul_prod(acc: int, ns: Seq<int>)
    requires
        fold_mul(acc, ns) is Ok,
    ensures
        fold_mul(acc, ns)->Ok_0 == acc * prod_of(ns),
    decreases ns.len(),
{
    if ns.len() > 0 {
        lemma_fold_mul_prod(acc * ns[0], ns.skip(1));
        assert((acc * ns[0]) * prod_of(ns.skip(1)) == acc * (ns[0] * prod_of(ns.skip(1))))
            by (nonlinear_arith);
    }
}

proof fn lemma_sum_remove(ns: Seq<int>, j: int)
    requires
        0 <= j < ns.len(),
    ensures
        sum_of(ns.remove(j)) == sum_of(ns) - ns[j],
    decreases j,
{
    if j == 0 {
        assert(ns.remove(0) =~= ns.skip(1));
    } else {
        assert(ns.remove(j)[0] == ns[0]);
        assert(ns.remove(j).skip(1) =~= ns.skip(1).remove(j - 1));
        lemma_sum_remove(ns.skip(1), j - 1);
        assert(ns.skip(1)[j - 1] == ns[j]);
    }
}

proof fn lemma_prod_remove(ns: Seq<int>, j: int)
    requires
        0 <= j < ns.len(),
    ensures
        prod_of(ns.remove(j)) * ns[j] == prod_of(ns),
    decreases j,
{
    if j == 0 {
        assert(ns.remove(0) =~= ns.skip(1));
        assert(prod_of(ns.skip(1)) * ns[0] == ns[0] * prod_of(ns.skip(1))) by (nonlinear_arith);
    } else {
        assert(ns.remove(j)[0] == ns[0]);
        assert(ns.remove(j).skip(1) =~= ns.skip(1).remove(j - 1));
        lemma_prod_remove(ns.skip(1), j - 1);
        assert(ns.skip(1)[j - 1] == ns[j]);
        assert((ns[0] * prod_of(ns.skip(1).remove(j - 1))) * ns[j] == ns[0] * (prod_of(
            ns.skip(1).remove(j - 1),
        ) * ns[j])) by (nonlinear_arith);
    }
}

proof fn lemma_sum_permutation(ns1: Seq<int>, ns2: Seq<int>)
    requires
        ns1.to_multiset() == ns2.to_multiset(),
    ensures
        sum_of(ns1) == sum_of(ns2),
    decreases ns1.len(),
{
    broadcast use vstd::seq_lib::group_to_multiset_ensures;

    assert(ns1.to_multiset().len() == ns1.len());
    assert(ns2.to_multiset().len() == ns2.len());
    if ns1.len() == 0 {
        assert(ns2.len() == 0);
    } else {
        let x = ns1[0];
        assert(ns1.contains(x));
        assert(ns1.to_multiset().count(x) > 0);
        assert(ns2.to_multiset().count(x) > 0);
        assert(ns2.contains(x));
        let j = choose|j: int| 0 <= j < ns2.len() && ns2[j] == x;
        assert(ns1.remove(0).to_multiset() =~= ns1.to_multiset().remove(x));
        assert(ns2.remove(j).to_multiset() =~= ns2.to_multiset().remove(ns2[j]));
        assert(ns1.remove(0).to_multiset() == ns2.remove(j).to_multiset());
        lemma_sum_permutation(ns1.remove(0), ns2.remove(j));
        lemma_sum_remove(ns2, j);
        assert(ns1.remove(0) =~= ns1.skip(1));
    }
}

proof fn lemma_prod_permutation(ns1: Seq<int>, ns2: Seq<int>)
    requires
        ns1.to_multiset() == ns2.to_multiset(),
    ensures
        prod_of(ns1) == prod_of(ns2),
    decreases ns1.len(),
{
    broadcast use vstd::seq_lib::group_to_multiset_ensures;

    assert(ns1.to_multiset().len() == ns1.len());
    assert(ns2.to_multiset().len() == ns2.len());
    if ns1.len() == 0 {
        assert(ns2.len() == 0);
    } else {
        let x = ns1[0];
        assert(ns1.contains(x));
        assert(ns1.to_multiset().count(x) > 0);
        assert(ns2.to_multiset().count(x) > 0);
        assert(ns2.contains(x));
        let j = choose|j: int| 0 <= j < ns2.len() && ns2[j] == x;
        assert(ns1.remove(0).to_multiset() =~= ns1.to_multiset().remove(x));
        assert(ns2.remove(j).to_multiset() =~= ns2.to_multiset().remove(ns2[j]));
        assert(ns1.remove(0).to_multiset() == ns2.remove(j).to_multiset());
        lemma_prod_permutation(ns1.remove(0), ns2.remove(j));
        lemma_prod_remove(ns2, j);
        assert(ns1.remove(0) =~= ns1.skip(1));
        assert(x * prod_of(ns2.remove(j)) == prod_of(ns2.remove(j)) * x) by (nonlinear_arith);
    }
}

/// `+` is fully commutative and associative over its arguments: two argument
/// sequences holding the same values as a bag, each folding without
/// overflow, fold to the same sum.
pub proof fn lemma_add_order_irrelevant(ns1: Seq<int>, ns2: Seq<int>)
    requires
        ns1.to_multiset() == ns2.to_multiset(),
        fold_add(0, ns1) is Ok,
        fold_add(0, ns2) is Ok,
    ensures
        fold_add(0, ns1) == fold_add(0, ns2),
{
    lemma_fold_add_sum(0, ns1);
    lemma_fold_add_sum(0, ns2);
    lemma_sum_permutation(ns1, ns2);
}

/// `*` is fully commutative and associative over its arguments: two argument
/// sequences holding the same values as a bag, each folding without
/// overflow, fold to the same product.
pub proof fn lemma_mul_order_irrelevant(ns1: Seq<int>, ns2: Seq<int>)
    requires
        ns1.to_multiset() == ns2.to_multiset(),
        fold_mul(1, ns1) is Ok,
        fold_mul(1, ns2) is Ok,
    ensures
        fold_mul(1, ns1) == fold_mul(1, ns2),
{
    lemma_fold_mul_prod(1, ns1);
    lemma_fold_mul_prod(1, ns2);
    lemma_prod_permutation(ns1, ns2);
}

} // verus!
