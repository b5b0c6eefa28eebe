//! Parsing tokens into expressions.
//!
//! An expression is an atom, which is one token, or a list: an opening
//! parenthesis, any number of expressions, and a closing parenthesis.
use crate::expr::{all_well_formed, views, Error, Expr, ExprView};
use crate::number::{is_number, is_number_literal, Num, NumView};
use crate::tokenizer::texts;
use vstd::prelude::*;
use vstd::slice::slice_subrange;

verus! {

/// What parsing yields: an expression with the tokens that follow it, or the
/// reason why there is none.
pub type Parsed = Result<(ExprView, Seq<Seq<char>>), Seq<char>>;

/// The token that opens a list.
pub open spec fn opening() -> Seq<char> {
    seq!['(']
}

/// The token that closes a list.
pub open spec fn closing() -> Seq<char> {
    seq![')']
}

/// The reason given when there is no token to parse.
pub open spec fn empty_input() -> Seq<char> {
    "empty input"@
}

/// The reason given when an expression starts with a closing parenthesis.
pub open spec fn unexpected_closing() -> Seq<char> {
    "unexpected )"@
}

/// The reason given when the tokens end inside a list.
pub open spec fn unclosed_list() -> Seq<char> {
    "could not parse list"@
}

/// What an atom is: a number if the token is a literal of one, else a symbol
/// of that name.
pub open spec fn atom_of(token: Seq<char>) -> ExprView {
    if is_number_literal(token) {
        ExprView::Number(NumView::Literal(token))
    } else {
        ExprView::Symbol(token)
    }
}

/// The first expression of `tokens`, with the tokens after it.
pub open spec fn parse_one(tokens: Seq<Seq<char>>) -> Parsed
    decreases tokens.len(), 0int,
{
    if tokens.len() == 0 {
        Err(empty_input())
    } else if tokens[0] == opening() {
        parse_list(tokens.drop_first(), Seq::empty())
    } else if tokens[0] == closing() {
        Err(unexpected_closing())
    } else {
        Ok((atom_of(tokens[0]), tokens.drop_first()))
    }
}

/// The list whose first elements are `items` and whose other elements, and
/// closing parenthesis, are at the start of `tokens`; with the tokens after
/// that parenthesis.
///
/// An element always takes at least one token (`lemma_parse_one_rest`), so
/// the test on the length of what is left never fails; it is there to show
/// that the definition is well founded.
pub open spec fn parse_list(tokens: Seq<Seq<char>>, items: Seq<ExprView>) -> Parsed
    decreases tokens.len(), 1int,
{
    if tokens.len() == 0 {
        Err(unclosed_list())
    } else if tokens[0] == closing() {
        Ok((ExprView::List(items), tokens.drop_first()))
    } else {
        match parse_one(tokens) {
            Err(reason) => Err(reason),
            Ok((item, rest)) => if rest.len() < tokens.len() {
                parse_list(rest, items.push(item))
            } else {
                Err(unclosed_list())
            },
        }
    }
}

/// The mathematical form of what the parser returns.
pub open spec fn parsed(result: Result<(Expr, &[String]), Error>) -> Parsed {
    match result {
        Ok((expr, rest)) => Ok((expr@, texts(rest@))),
        Err(error) => Err(error@),
    }
}

/// Whether `rest` is what is left of `tokens` after at least one of them was
/// taken from the front.
pub open spec fn is_proper_suffix<A>(rest: Seq<A>, tokens: Seq<A>) -> bool {
    &&& rest.len() < tokens.len()
    &&& rest == tokens.skip(tokens.len() - rest.len())
}

/// Whether `token` is the single character `c`.
fn is_char(token: &str, c: char) -> (b: bool)
    ensures
        b == (token@ == seq![c]),
{
    let mut seen = false;
    let mut same = true;
    for found in it: token.chars()
        invariant
            it.seq() == token@,
            seen == (it.index() > 0),
            same == (it.index() == 0 || (it.index() == 1 && token@[0] == c)),
    {
        if seen || found != c {
            same = false;
        }
        seen = true;
    }
    assert(seen && same ==> token@ =~= seq![c]);
    seen && same
}

/// Reads an atom: a number if `token` is a literal of one, else a symbol.
pub fn read_atom(token: &str) -> (atom: Expr)
    ensures
        atom@ == atom_of(token@),
        atom@.well_formed(),
{
    if is_number(token) {
        Expr::Number(Num::Literal(String::from_str(token)))
    } else {
        Expr::Symbol(String::from_str(token))
    }
}

/// Parses the first expression of `tokens` and hands back the tokens that
/// follow it. Fails where there is no token, where the first token is a
/// closing parenthesis, and where a list is not closed.
pub fn parse<'a>(tokens: &'a [String]) -> (result: Result<(Expr, &'a [String]), Error>)
    ensures
        parsed(result) == parse_one(texts(tokens@)),
        result matches Ok((expr, rest)) ==> is_proper_suffix(rest@, tokens@) && expr@.well_formed(),
    decreases tokens@.len(), 0int,
{
    proof {
        lemma_parse_one_well_formed(texts(tokens@));
    }
    if tokens.len() == 0 {
        return Err(Error::new("empty input"));
    }
    let token = tokens[0].as_str();
    let rest = slice_subrange(tokens, 1, tokens.len());
    assert(texts(rest@) =~= texts(tokens@).drop_first());
    if is_char(token, '(') {
        let result = read_list(rest);
        proof {
            if let Ok((_, after)) = result {
                assert(rest@.skip(rest@.len() - after@.len()) =~= tokens@.skip(
                    tokens@.len() - after@.len(),
                ));
            }
        }
        result
    } else if is_char(token, ')') {
        Err(Error::new("unexpected )"))
    } else {
        Ok((read_atom(token), rest))
    }
}

/// Reads the elements of a list up to its closing parenthesis, which is
/// taken too; `tokens` start after the opening parenthesis.
pub fn read_list<'a>(tokens: &'a [String]) -> (result: Result<(Expr, &'a [String]), Error>)
    ensures
        parsed(result) == parse_list(texts(tokens@), Seq::empty()),
        result matches Ok((expr, rest)) ==> is_proper_suffix(rest@, tokens@) && expr@.well_formed(),
    decreases tokens@.len(), 1int,
{
    let mut left = tokens;
    let mut list: Vec<Expr> = Vec::new();
    assert(views(list@) =~= Seq::empty());
    while left.len() > 0
        invariant
            left@.len() <= tokens@.len(),
            left@ == tokens@.skip(tokens@.len() - left@.len()),
            parse_list(texts(left@), views(list@)) == parse_list(texts(tokens@), Seq::empty()),
        decreases left@.len(),
    {
        let rest = slice_subrange(left, 1, left.len());
        assert(texts(rest@) =~= texts(left@).drop_first());
        assert(rest@ =~= tokens@.skip(tokens@.len() - rest@.len()));
        if is_char(left[0].as_str(), ')') {
            proof {
                crate::expr::lemma_list_view(list);
                lemma_parse_list_well_formed(texts(tokens@), Seq::empty());
            }
            return Ok((Expr::List(list), rest));
        }
        match parse(left) {
            Err(error) => {
                return Err(error);
            },
            Ok((expr, rest)) => {
                proof {
                    assert(views(list@.push(expr)) =~= views(list@).push(expr@));
                }
                list.push(expr);
                left = rest;
            },
        }
    }
    Err(Error::new("could not parse list"))
}

/// An expression takes at least one token, and the tokens after it are
/// handed back as they were.
pub proof fn lemma_parse_one_rest(tokens: Seq<Seq<char>>)
    ensures
        parse_one(tokens) matches Ok((_, rest)) ==> is_proper_suffix(rest, tokens),
    decreases tokens.len(), 0int,
{
    if tokens.len() > 0 {
        let tail = tokens.drop_first();
        if tokens[0] == opening() {
            lemma_parse_list_rest(tail, Seq::empty());
            if let Ok((_, rest)) = parse_list(tail, Seq::empty()) {
                assert(tail.skip(tail.len() - rest.len()) =~= tokens.skip(
                    tokens.len() - rest.len(),
                ));
            }
        }
    }
}

/// The rest of a list takes at least one token, and the tokens after its
/// closing parenthesis are handed back as they were.
pub proof fn lemma_parse_list_rest(tokens: Seq<Seq<char>>, items: Seq<ExprView>)
    ensures
        parse_list(tokens, items) matches Ok((_, rest)) ==> is_proper_suffix(rest, tokens),
    decreases tokens.len(), 1int,
{
    if tokens.len() > 0 {
        if tokens[0] != closing() {
            lemma_parse_one_rest(tokens);
            if let Ok((item, middle)) = parse_one(tokens) {
                lemma_parse_list_rest(middle, items.push(item));
                if let Ok((_, rest)) = parse_list(middle, items.push(item)) {
                    assert(middle.skip(middle.len() - rest.len()) =~= tokens.skip(
                        tokens.len() - rest.len(),
                    ));
                }
            }
        }
    }
}

/// A list whose closing parenthesis never comes cannot be parsed: where no
/// token is a closing parenthesis, reading the elements of a list fails
/// because the list is not closed, whatever was read before.
pub proof fn lemma_unclosed_list_fails(tokens: Seq<Seq<char>>, items: Seq<ExprView>)
    requires
        forall|i: int| 0 <= i < tokens.len() ==> #[trigger] tokens[i] != closing(),
    ensures
        parse_list(tokens, items) == Err::<(ExprView, Seq<Seq<char>>), Seq<char>>(unclosed_list()),
        tokens.len() > 0 && tokens[0] == opening() ==> parse_one(tokens) == Err::<
            (ExprView, Seq<Seq<char>>),
            Seq<char>,
        >(unclosed_list()),
    decreases tokens.len(),
{
    if tokens.len() > 0 {
        let tail = tokens.drop_first();
        assert(forall|i: int| 0 <= i < tail.len() ==> #[trigger] tail[i] != closing());
        lemma_unclosed_list_fails(tail, Seq::empty());
        if tokens[0] != opening() {
            lemma_unclosed_list_fails(tail, items.push(atom_of(tokens[0])));
        }
    }
}

/// Every number in a parsed expression has a value.
pub proof fn lemma_parse_one_well_formed(tokens: Seq<Seq<char>>)
    ensures
        parse_one(tokens) matches Ok((expr, _)) ==> expr.well_formed(),
    decreases tokens.len(), 0int,
{
    if tokens.len() > 0 && tokens[0] == opening() {
        lemma_parse_list_well_formed(tokens.drop_first(), Seq::empty());
    }
}

/// Every number in a parsed list has a value, if those in the elements that
/// were parsed before have.
pub proof fn lemma_parse_list_well_formed(tokens: Seq<Seq<char>>, items: Seq<ExprView>)
    requires
        all_well_formed(items),
    ensures
        parse_list(tokens, items) matches Ok((expr, _)) ==> expr.well_formed(),
    decreases tokens.len(), 1int,
{
    if tokens.len() > 0 && tokens[0] != closing() {
        lemma_parse_one_well_formed(tokens);
        if let Ok((item, rest)) = parse_one(tokens) {
            if rest.len() < tokens.len() {
                lemma_parse_list_well_formed(rest, items.push(item));
            }
        }
    }
}

/// Parsing is a function of the tokens: two results for tokens that read
/// the same are the same expression with the same tokens left, or the same
/// failure.
pub proof fn lemma_parse_deterministic(
    first: Seq<String>,
    second: Seq<String>,
    first_result: Result<(Expr, &[String]), Error>,
    second_result: Result<(Expr, &[String]), Error>,
)
    requires
        texts(first) == texts(second),
        parsed(first_result) == parse_one(texts(first)),
        parsed(second_result) == parse_one(texts(second)),
    ensures
        parsed(first_result) == parsed(second_result),
{
}

} // verus!
