use lispeval::env::{default_env, LispEnv};
use lispeval::eval::{semantic_analysis, EvalError};
use lispeval::exp::{Builtin, LispExp};
use lispeval::lexer::{is_empty_char, lexer, LexError};
use lispeval::parser::{parser, ParseError};
use lispeval::{eval, InterpError};

fn ready_env() -> LispEnv {
    let mut env = LispEnv::new();
    default_env(&mut env);
    env
}

fn run(s: &str) -> Result<LispExp, InterpError> {
    let env = ready_env();
    eval(s, &env)
}

#[test]
fn lexer_test() {
    let result = lexer("(+ 1 2)").unwrap();
    let expect = vec!["(", "+", "1", "2", ")"];
    assert_eq!(expect, result);
    let result2 = lexer("(+ (* 2 2) (/ 4 2))").unwrap();
    let expect2 = vec!["(", "+", "(", "*", "2", "2", ")", "(", "/", "4", "2", ")", ")"];
    assert_eq!(expect2, result2);
    let result3 = lexer("(expt 2 2)").unwrap();
    let expect3 = vec!["(", "expt", "2", "2", ")"];
    assert_eq!(expect3, result3);
    let result4 = lexer("(print \"hoge fuga \")").unwrap();
    let expect4 = vec!["(", "print", "\"hoge fuga \"", ")"];
    assert_eq!(expect4, result4);
}

#[test]
fn parser_test() {
    let result = parser(&mut lexer("(+ 1 2)").unwrap()).unwrap();
    let expect = LispExp::List(vec![
        LispExp::Symbol("+".to_string()),
        LispExp::Number(1),
        LispExp::Number(2),
    ]);
    assert_eq!(expect, result);

    let result2 = parser(&mut lexer("(+ (* 2 3) (/ 10 2))").unwrap()).unwrap();
    let expect2 = LispExp::List(vec![
        LispExp::Symbol("+".to_string()),
        LispExp::List(vec![
            LispExp::Symbol("*".to_string()),
            LispExp::Number(2),
            LispExp::Number(3),
        ]),
        LispExp::List(vec![
            LispExp::Symbol("/".to_string()),
            LispExp::Number(10),
            LispExp::Number(2),
        ]),
    ]);
    assert_eq!(expect2, result2);
}

#[test]
fn semantic_analysis_test() {
    let mut env = LispEnv::new();
    default_env(&mut env);
    let parse = parser(&mut lexer("(+ 1 2)").unwrap()).unwrap();
    let result = semantic_analysis(&parse, &env);
    let expect = LispExp::Number(3);
    assert_eq!(expect, result.ok().unwrap());
}

#[test]
fn round_trip_tokens() {
    let result = lexer("(+ 1 2)").unwrap();
    assert_eq!(vec!["(", "+", "1", "2", ")"], result);
}

#[test]
fn quoted_run_is_one_token() {
    let result = lexer("(print \"hoge fuga \")").unwrap();
    assert_eq!(vec!["(", "print", "\"hoge fuga \"", ")"], result);
}

#[test]
fn quoted_run_keeps_parentheses() {
    let result = lexer("(f \"(a b)\")").unwrap();
    assert_eq!(vec!["(", "f", "\"(a b)\"", ")"], result);
}

#[test]
fn quoted_run_ends_at_closing_quote() {
    let result = lexer("\"abc\"def").unwrap();
    assert_eq!(vec!["\"abc\"", "def"], result);
}

#[test]
fn quote_inside_symbol_does_not_split() {
    let result = lexer("x\"ab\"").unwrap();
    assert_eq!(vec!["x\"ab\""], result);
}

#[test]
fn whitespace_kinds_are_skipped() {
    let result = lexer("(+ 1\n\t2)").unwrap();
    assert_eq!(vec!["(", "+", "1", "2", ")"], result);
}

#[test]
fn is_empty_char_test() {
    assert!(is_empty_char(' '));
    assert!(is_empty_char('\n'));
    assert!(is_empty_char('\t'));
    assert!(!is_empty_char('a'));
    assert!(!is_empty_char('('));
}

#[test]
fn parse_flat_addition() {
    let mut tokens = vec![
        "(".to_string(),
        "+".to_string(),
        "1".to_string(),
        "2".to_string(),
        ")".to_string(),
    ];
    let result = parser(&mut tokens).unwrap();
    let expect = LispExp::List(vec![
        LispExp::Symbol("+".to_string()),
        LispExp::Number(1),
        LispExp::Number(2),
    ]);
    assert_eq!(expect, result);
    assert!(tokens.is_empty());
}

#[test]
fn parse_of_nothing_is_nil() {
    let mut tokens: Vec<String> = Vec::new();
    let result = parser(&mut tokens).unwrap();
    assert_eq!(LispExp::Symbol("nil".to_string()), result);
}

#[test]
fn parse_leaves_later_tokens() {
    let mut tokens = vec!["1".to_string(), "2".to_string()];
    let result = parser(&mut tokens).unwrap();
    assert_eq!(LispExp::Number(1), result);
    assert_eq!(vec!["2"], tokens);
}

#[test]
fn evaluate_addition() {
    assert_eq!(LispExp::Number(3), run("(+ 1 2)").unwrap());
}

#[test]
fn evaluate_multiplication() {
    assert_eq!(LispExp::Number(6), run("(* 2 3)").unwrap());
}

#[test]
fn multiplication_of_nothing_is_one() {
    assert_eq!(LispExp::Number(1), run("(*)").unwrap());
}

#[test]
fn addition_of_nothing_is_zero() {
    assert_eq!(LispExp::Number(0), run("(+)").unwrap());
}

#[test]
fn evaluate_nested() {
    assert_eq!(LispExp::Number(11), run("(+ (* 2 3) (/ 10 2))").unwrap());
}

#[test]
fn subtraction_is_left_associative() {
    assert_eq!(LispExp::Number(7), run("(- 10 1 2)").unwrap());
}

#[test]
fn division_is_left_associative() {
    assert_eq!(LispExp::Number(10), run("(/ 100 5 2)").unwrap());
}

#[test]
fn unknown_symbol_not_found() {
    let result = run("(foo 1 2)");
    assert_eq!(
        InterpError::Eval(EvalError::NotFound("foo".to_string())),
        result.unwrap_err()
    );
}

#[test]
fn missing_close_paren_unbalanced() {
    let result = parser(&mut lexer("(+ 1 2").unwrap());
    assert_eq!(ParseError::UnbalancedParentheses, result.unwrap_err());
}

#[test]
fn stray_close_paren_unbalanced() {
    let mut tokens = vec![")".to_string()];
    let result = parser(&mut tokens);
    assert_eq!(ParseError::UnbalancedParentheses, result.unwrap_err());
}

#[test]
fn unterminated_string_lex_error() {
    let result = lexer("(print \"unterminated");
    assert_eq!(LexError::UnterminatedString, result.unwrap_err());
}

#[test]
fn empty_application_is_an_error() {
    let result = run("()");
    assert_eq!(
        InterpError::Eval(EvalError::EmptyApplication),
        result.unwrap_err()
    );
}

#[test]
fn number_head_is_not_callable() {
    let result = run("(1 2)");
    assert_eq!(
        InterpError::Eval(EvalError::NotCallable),
        result.unwrap_err()
    );
}

#[test]
fn string_argument_expected_number() {
    let result = run("(+ 1 \"x\")");
    assert_eq!(
        InterpError::Eval(EvalError::ExpectedNumber),
        result.unwrap_err()
    );
}

#[test]
fn subtraction_needs_an_argument() {
    let result = run("(-)");
    assert_eq!(
        InterpError::Eval(EvalError::TooFewArguments),
        result.unwrap_err()
    );
}

#[test]
fn division_by_zero_is_an_error() {
    let result = run("(/ 1 0)");
    assert_eq!(
        InterpError::Eval(EvalError::DivisionByZero),
        result.unwrap_err()
    );
}

#[test]
fn addition_overflow_is_an_error() {
    let result = run("(+ 9223372036854775807 1)");
    assert_eq!(InterpError::Eval(EvalError::Overflow), result.unwrap_err());
}

#[test]
fn fractional_literal_is_rejected() {
    let result = run("(+ 1.5 1)");
    assert_eq!(
        InterpError::Parse(ParseError::InvalidNumber),
        result.unwrap_err()
    );
}

#[test]
fn oversized_literal_is_rejected() {
    let result = run("99999999999999999999");
    assert_eq!(
        InterpError::Parse(ParseError::InvalidNumber),
        result.unwrap_err()
    );
}

#[test]
fn function_value_is_not_evaluable() {
    let env = ready_env();
    let result = semantic_analysis(&LispExp::Func(Builtin::Add), &env);
    assert_eq!(EvalError::NotEvaluable, result.unwrap_err());
}

#[test]
fn leading_minus_token_is_a_symbol() {
    let result = run("-5");
    assert_eq!(
        InterpError::Eval(EvalError::NotFound("-5".to_string())),
        result.unwrap_err()
    );
}

#[test]
fn literal_evaluates_to_itself() {
    assert_eq!(LispExp::Number(42), run("42").unwrap());
    assert_eq!(
        LispExp::Str("\"hoge\"".to_string()),
        run("\"hoge\"").unwrap()
    );
}

#[test]
fn function_values_never_compare_equal() {
    assert_ne!(LispExp::Func(Builtin::Add), LispExp::Func(Builtin::Add));
    assert_ne!(LispExp::Func(Builtin::Add), LispExp::Func(Builtin::Sub));
}

#[test]
fn structural_equality_over_lists() {
    let a = LispExp::List(vec![LispExp::Number(1), LispExp::Symbol("x".to_string())]);
    let b = LispExp::List(vec![LispExp::Number(1), LispExp::Symbol("x".to_string())]);
    let c = LispExp::List(vec![LispExp::Number(2), LispExp::Symbol("x".to_string())]);
    assert_eq!(a, b);
    assert_ne!(a, c);
}

#[test]
fn bind_overwrites_and_lookup_copies() {
    let mut env = LispEnv::new();
    assert!(env.lookup(&"x".to_string()).is_none());
    env.bind("x".to_string(), LispExp::Number(1));
    env.bind("x".to_string(), LispExp::Number(2));
    assert_eq!(LispExp::Number(2), env.lookup(&"x".to_string()).unwrap());
    assert!(env.lookup(&"y".to_string()).is_none());
}

#[test]
fn environment_persists_across_lines() {
    let env = ready_env();
    assert_eq!(LispExp::Number(3), eval("(+ 1 2)", &env).unwrap());
    assert_eq!(LispExp::Number(4), eval("(+ 2 2)", &env).unwrap());
}
