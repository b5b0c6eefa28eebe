use minilisp::expr::{Error, Expr};
use minilisp::number::Num;
use minilisp::parser::{parse, read_atom, read_list};
use minilisp::tokenizer::tokenize;

fn number(text: &str) -> Expr {
    Expr::Number(Num::Literal(text.to_string()))
}

fn symbol(name: &str) -> Expr {
    Expr::Symbol(name.to_string())
}

fn reason_of<T: std::fmt::Debug>(result: Result<T, Error>) -> String {
    match result {
        Err(Error::Reason(reason)) => reason,
        Ok(value) => panic!("expected a failure, got {:?}", value),
    }
}

#[test]
fn parse_simple_call() {
    let tokens = tokenize("(+ 1 2)");
    let (expr, rest) = parse(&tokens).unwrap();
    assert_eq!(expr, Expr::List(vec![symbol("+"), number("1"), number("2")]));
    assert!(rest.is_empty());
}

#[test]
fn parse_empty_list() {
    let tokens = tokenize("()");
    let (expr, rest) = parse(&tokens).unwrap();
    assert_eq!(expr, Expr::List(vec![]));
    assert!(rest.is_empty());
}

#[test]
fn parse_nested_lists() {
    let tokens = tokenize("(a (b (c 1.5)) () d)");
    let (expr, rest) = parse(&tokens).unwrap();
    assert_eq!(
        expr,
        Expr::List(vec![
            symbol("a"),
            Expr::List(vec![symbol("b"), Expr::List(vec![symbol("c"), number("1.5")])]),
            Expr::List(vec![]),
            symbol("d"),
        ])
    );
    assert!(rest.is_empty());
}

#[test]
fn parse_unclosed_list_fails() {
    assert_eq!(reason_of(parse(&tokenize("(+ 1 2"))), "could not parse list");
    assert_eq!(reason_of(parse(&tokenize("("))), "could not parse list");
    assert_eq!(reason_of(parse(&tokenize("(a (b)"))), "could not parse list");
}

#[test]
fn parse_unexpected_closing_fails() {
    assert_eq!(reason_of(parse(&tokenize(")"))), "unexpected )");
    assert_eq!(reason_of(parse(&tokenize(") 1"))), "unexpected )");
}

#[test]
fn parse_no_tokens_fails() {
    assert_eq!(reason_of(parse(&tokenize(""))), "empty input");
    assert_eq!(reason_of(parse(&[])), "empty input");
}

#[test]
fn parse_hands_back_the_tokens_it_did_not_take() {
    let tokens = tokenize("1 2 3");
    let (expr, rest) = parse(&tokens).unwrap();
    assert_eq!(expr, number("1"));
    assert_eq!(rest, &tokens[1..]);

    let tokens = tokenize("(a) b )");
    let (expr, rest) = parse(&tokens).unwrap();
    assert_eq!(expr, Expr::List(vec![symbol("a")]));
    assert_eq!(rest, &tokens[3..]);
    let (expr, rest) = parse(rest).unwrap();
    assert_eq!(expr, symbol("b"));
    assert_eq!(reason_of(parse(rest)), "unexpected )");
}

#[test]
fn read_list_starts_after_the_opening_parenthesis() {
    let tokens = tokenize("1 x) y");
    let (expr, rest) = read_list(&tokens).unwrap();
    assert_eq!(expr, Expr::List(vec![number("1"), symbol("x")]));
    assert_eq!(rest, &tokens[3..]);
    assert_eq!(reason_of(read_list(&tokenize("1 x"))), "could not parse list");
    assert_eq!(reason_of(read_list(&[])), "could not parse list");
}

#[test]
fn read_atom_tells_numbers_from_symbols() {
    assert_eq!(read_atom("1"), number("1"));
    assert_eq!(read_atom("-2.5e3"), number("-2.5e3"));
    assert_eq!(read_atom("inf"), number("inf"));
    assert_eq!(read_atom("NaN"), number("NaN"));
    assert_eq!(read_atom("+"), symbol("+"));
    assert_eq!(read_atom("-"), symbol("-"));
    assert_eq!(read_atom("foo"), symbol("foo"));
    assert_eq!(read_atom("+1x"), symbol("+1x"));
    assert_eq!(read_atom("1e"), symbol("1e"));
}

#[test]
fn parsing_twice_gives_the_same_tree() {
    let tokens = tokenize("(- 10 (+ 1 2) x)");
    assert_eq!(tokens, tokenize("(- 10 (+ 1 2) x)"));
    assert_eq!(parse(&tokens), parse(&tokens));
}

fn literals_are_numbers(expr: &Expr) -> bool {
    match expr {
        Expr::Number(Num::Literal(text)) => text.parse::<f64>().is_ok(),
        Expr::Number(_) => false,
        Expr::List(items) => items.iter().all(literals_are_numbers),
        _ => true,
    }
}

#[test]
fn parsed_numbers_are_literals_of_doubles() {
    let tokens = tokenize("(a 1 -2.5 (+.5e-3 inf (NaN 1e) x1) 007 . e1 1.)");
    let (expr, rest) = parse(&tokens).unwrap();
    assert!(rest.is_empty());
    assert!(literals_are_numbers(&expr));
    assert_eq!(
        expr,
        Expr::List(vec![
            symbol("a"),
            number("1"),
            number("-2.5"),
            Expr::List(vec![
                number("+.5e-3"),
                number("inf"),
                Expr::List(vec![number("NaN"), symbol("1e")]),
                symbol("x1"),
            ]),
            number("007"),
            symbol("."),
            symbol("e1"),
            number("1."),
        ])
    );
}

#[test]
fn clone_copies_the_whole_tree() {
    let tokens = tokenize("(a (b 1.5 ()) 2)");
    let (expr, _) = parse(&tokens).unwrap();
    let copy = expr.clone();
    assert_eq!(copy, expr);
    let sum = Num::Sum(Box::new(Num::Zero), Box::new(Num::Literal("1".to_string())));
    let two = Num::Literal("2".to_string());
    let difference = Num::Difference(Box::new(sum.clone()), Box::new(two));
    assert_eq!(difference.clone(), difference);
}

#[test]
fn error_holds_its_reason() {
    let error = Error::new("unexpected )");
    assert_eq!(error.reason(), "unexpected )");
    assert_eq!(error, Error::Reason("unexpected )".to_string()));
    assert_eq!(parse(&tokenize(")")).unwrap_err().reason(), "unexpected )");
}
