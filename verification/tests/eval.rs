use minilisp::env::{default_env, Env};
use minilisp::eval::eval;
use minilisp::expr::{Error, Expr, Native};
use minilisp::number::Num;
use minilisp::parser::parse;
use minilisp::tokenizer::tokenize;

/// The double that a number denotes.
fn double_of(num: &Num) -> f64 {
    match num {
        Num::Zero => 0.0,
        Num::Literal(text) => text.parse().unwrap(),
        Num::Sum(left, right) => double_of(left) + double_of(right),
        Num::Difference(left, right) => double_of(left) - double_of(right),
    }
}

fn literal(text: &str) -> Num {
    Num::Literal(text.to_string())
}

fn plus(left: Num, right: Num) -> Num {
    Num::Sum(Box::new(left), Box::new(right))
}

fn minus(left: Num, right: Num) -> Num {
    Num::Difference(Box::new(left), Box::new(right))
}

fn run(text: &str) -> Result<Expr, Error> {
    let tokens = tokenize(text);
    let (expr, _rest) = parse(&tokens).unwrap();
    eval(expr, &default_env())
}

fn number_of(text: &str) -> Num {
    match run(text) {
        Ok(Expr::Number(num)) => num,
        other => panic!("expected a number, got {:?}", other),
    }
}

fn failure_of(text: &str) -> String {
    match run(text) {
        Err(Error::Reason(reason)) => reason,
        Ok(value) => panic!("expected a failure, got {:?}", value),
    }
}

#[test]
fn eval_addition() {
    let num = number_of("(+ 1 2)");
    assert_eq!(num, plus(plus(Num::Zero, literal("1")), literal("2")));
    assert_eq!(double_of(&num).to_bits(), 3.0f64.to_bits());
}

#[test]
fn eval_subtraction_folds_from_the_left() {
    let num = number_of("(- 10 1 2)");
    assert_eq!(num, minus(minus(literal("10"), literal("1")), literal("2")));
    assert_eq!(double_of(&num).to_bits(), 7.0f64.to_bits());
}

#[test]
fn eval_addition_of_nothing_is_zero() {
    let num = number_of("(+)");
    assert_eq!(num, Num::Zero);
    assert_eq!(double_of(&num).to_bits(), 0.0f64.to_bits());
}

#[test]
fn eval_addition_starts_at_positive_zero() {
    let num = number_of("(+ -0)");
    assert_eq!(num, plus(Num::Zero, literal("-0")));
    assert_eq!(double_of(&num).to_bits(), 0.0f64.to_bits());
}

#[test]
fn eval_subtraction_of_one_number_is_that_number() {
    let num = number_of("(- 5)");
    assert_eq!(num, literal("5"));
    assert_eq!(double_of(&num).to_bits(), 5.0f64.to_bits());
    assert_eq!(double_of(&number_of("(- -0)")).to_bits(), (-0.0f64).to_bits());
}

#[test]
fn eval_subtraction_of_nothing_fails() {
    assert_eq!(failure_of("(-)"), "- expects numbers");
}

#[test]
fn eval_nested_calls() {
    let num = number_of("(+ 1 (- 10 2.5) (+))");
    assert_eq!(
        num,
        plus(
            plus(plus(Num::Zero, literal("1")), minus(literal("10"), literal("2.5"))),
            Num::Zero,
        )
    );
    assert_eq!(double_of(&num).to_bits(), 8.5f64.to_bits());
}

#[test]
fn eval_rounds_as_doubles_do() {
    let num = number_of("(+ 0.1 0.2)");
    assert_eq!(double_of(&num).to_bits(), (0.1f64 + 0.2f64).to_bits());
    let left = double_of(&number_of("(- (+ 1e16 1) 1e16)"));
    assert_eq!(left.to_bits(), ((0.0f64 + 1e16 + 1.0) - 1e16).to_bits());
    assert!(double_of(&number_of("(- inf inf)")).is_nan());
}

#[test]
fn eval_empty_list_fails() {
    let tokens = tokenize("()");
    let (expr, rest) = parse(&tokens).unwrap();
    assert_eq!(expr, Expr::List(vec![]));
    assert!(rest.is_empty());
    assert_eq!(eval(expr, &default_env()), Err(Error::Reason("empty list".to_string())));
}

#[test]
fn eval_unbound_symbol_fails() {
    assert_eq!(
        eval(Expr::Symbol("x".to_string()), &default_env()),
        Err(Error::Reason("unbound symbol: x".to_string()))
    );
    assert_eq!(failure_of("(foo 1 2)"), "unbound symbol: foo");
    assert_eq!(failure_of("(+ 1 (- y))"), "unbound symbol: y");
}

#[test]
fn eval_argument_that_is_no_number_fails() {
    assert_eq!(failure_of("(+ 1 foo)"), "unbound symbol: foo");
    assert_eq!(failure_of("(+ 1 +)"), "+ expects numbers");
    assert_eq!(failure_of("(- 1 -)"), "- expects numbers");
    assert_eq!(failure_of("(- + 1)"), "- expects numbers");
    assert_eq!(failure_of("(+ - 1)"), "+ expects numbers");
}

#[test]
fn eval_first_element_that_is_no_function_fails() {
    assert_eq!(failure_of("(1 2 3)"), "not a function");
    assert_eq!(failure_of("((+ 1 2) 3)"), "not a function");
    assert_eq!(failure_of("(1 foo)"), "not a function");
    let mut env = default_env();
    env.bind("pair", Expr::List(vec![Expr::Symbol("a".to_string())]));
    env.bind("name", Expr::Symbol("other".to_string()));
    let call = |head: &str| Expr::List(vec![Expr::Symbol(head.to_string())]);
    assert_eq!(eval(call("pair"), &env), Err(Error::Reason("not a function".to_string())));
    assert_eq!(eval(call("name"), &env), Err(Error::Reason("not a function".to_string())));
}

#[test]
fn eval_first_failure_wins() {
    assert_eq!(failure_of("(+ a b)"), "unbound symbol: a");
    assert_eq!(failure_of("(+ 1 (2) b)"), "not a function");
    assert_eq!(failure_of("(f (-))"), "unbound symbol: f");
    assert_eq!(failure_of("(+ (-) x)"), "- expects numbers");
    assert_eq!(failure_of("(+ + x)"), "unbound symbol: x");
}

#[test]
fn eval_numbers_and_functions_are_their_own_values() {
    let env = default_env();
    assert_eq!(eval(Expr::Number(literal("4.5")), &env), Ok(Expr::Number(literal("4.5"))));
    assert_eq!(eval(Expr::Func(Native::Sub), &env), Ok(Expr::Func(Native::Sub)));
    assert_eq!(eval(Expr::Symbol("+".to_string()), &env), Ok(Expr::Func(Native::Add)));
    assert_eq!(eval(Expr::Symbol("-".to_string()), &env), Ok(Expr::Func(Native::Sub)));
}

#[test]
fn eval_function_in_call_position_without_a_name() {
    let env = default_env();
    let call = Expr::List(vec![
        Expr::Func(Native::Add),
        Expr::Number(literal("1")),
        Expr::Number(literal("2")),
    ]);
    match eval(call, &env) {
        Ok(Expr::Number(num)) => assert_eq!(double_of(&num).to_bits(), 3.0f64.to_bits()),
        other => panic!("expected a number, got {:?}", other),
    }
}

#[test]
fn eval_symbol_bound_to_a_value_yields_that_value_unevaluated() {
    let mut env = default_env();
    env.bind("x", Expr::Number(literal("42")));
    env.bind("y", Expr::Symbol("x".to_string()));
    assert_eq!(eval(Expr::Symbol("x".to_string()), &env), Ok(Expr::Number(literal("42"))));
    assert_eq!(eval(Expr::Symbol("y".to_string()), &env), Ok(Expr::Symbol("x".to_string())));
    let tokens = tokenize("(- x 2)");
    let (expr, _) = parse(&tokens).unwrap();
    match eval(expr, &env) {
        Ok(Expr::Number(num)) => assert_eq!(double_of(&num).to_bits(), 40.0f64.to_bits()),
        other => panic!("expected a number, got {:?}", other),
    }
}

#[test]
fn eval_is_repeatable_and_leaves_the_environment_alone() {
    let env = default_env();
    let tokens = tokenize("(- (+ 1 2) 4 x)");
    let first = eval(parse(&tokens).unwrap().0, &env);
    let second = eval(parse(&tokens).unwrap().0, &env);
    assert_eq!(first, second);
    assert_eq!(first, Err(Error::Reason("unbound symbol: x".to_string())));
    assert_eq!(env.lookup("+"), Some(&Expr::Func(Native::Add)));
    assert_eq!(env.lookup("x"), None);
}

#[test]
fn native_call_applies_to_values() {
    let one = || Expr::Number(literal("1"));
    assert_eq!(
        Native::Add.call(vec![one(), one()]),
        Ok(Expr::Number(plus(plus(Num::Zero, literal("1")), literal("1"))))
    );
    assert_eq!(Native::Sub.call(vec![one()]), Ok(Expr::Number(literal("1"))));
    assert_eq!(
        Native::Add.call(vec![one(), Expr::List(vec![])]),
        Err(Error::Reason("+ expects numbers".to_string()))
    );
    assert_eq!(
        Native::Sub.call(vec![Expr::Symbol("a".to_string()), one()]),
        Err(Error::Reason("- expects numbers".to_string()))
    );
    assert_eq!(Native::Sub.call(vec![]), Err(Error::Reason("- expects numbers".to_string())));
}

#[test]
fn default_environment_binds_the_two_operators_only() {
    let env = default_env();
    assert!(env.parent.is_none());
    assert_eq!(env.lookup("+"), Some(&Expr::Func(Native::Add)));
    assert_eq!(env.lookup("-"), Some(&Expr::Func(Native::Sub)));
    assert_eq!(env.lookup("*"), None);
    assert_eq!(env.lookup(""), None);
    assert_eq!(env.lookup("+ "), None);
}

#[test]
fn lookup_walks_the_enclosing_scopes_from_the_inside_out() {
    let mut outer = Env::new();
    outer.bind("a", Expr::Number(literal("1")));
    outer.bind("b", Expr::Number(literal("2")));
    let mut inner = Env::nested(outer);
    assert_eq!(inner.lookup("a"), Some(&Expr::Number(literal("1"))));
    inner.bind("a", Expr::Number(literal("10")));
    inner.bind("c", Expr::Number(literal("3")));
    assert_eq!(inner.lookup("a"), Some(&Expr::Number(literal("10"))));
    assert_eq!(inner.lookup("b"), Some(&Expr::Number(literal("2"))));
    assert_eq!(inner.lookup("c"), Some(&Expr::Number(literal("3"))));
    assert_eq!(inner.lookup("d"), None);
    let outer = inner.parent.as_ref().unwrap();
    assert_eq!(outer.lookup("a"), Some(&Expr::Number(literal("1"))));
    assert_eq!(outer.lookup("c"), None);
    let innermost = Env::nested(inner);
    assert_eq!(innermost.lookup("a"), Some(&Expr::Number(literal("10"))));
    assert_eq!(innermost.lookup("b"), Some(&Expr::Number(literal("2"))));
}

#[test]
fn bind_replaces_an_earlier_binding_of_the_name() {
    let mut env = Env::new();
    assert_eq!(env.lookup("a"), None);
    env.bind("a", Expr::Number(literal("1")));
    env.bind("a", Expr::Symbol("s".to_string()));
    assert_eq!(env.lookup("a"), Some(&Expr::Symbol("s".to_string())));
}
