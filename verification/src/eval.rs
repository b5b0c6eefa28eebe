//! Evaluation: reducing an expression to a value in an environment.
use crate::env::{well_formed_bindings, Env};
use crate::expr::{all_well_formed, lemma_list_view, views, Error, Expr, ExprView, Native};
use crate::number::{Num, NumView};
use vstd::prelude::*;

verus! {

/// What evaluation yields: a value, or the reason why there is none.
pub type Outcome = Result<ExprView, Seq<char>>;

/// The reason given when a list with no elements is evaluated.
pub open spec fn empty_list() -> Seq<char> {
    "empty list"@
}

/// The reason given when the first element of a list is no function.
pub open spec fn not_a_function() -> Seq<char> {
    "not a function"@
}

/// The reason given when `name` is not bound.
pub open spec fn unbound_symbol(name: Seq<char>) -> Seq<char> {
    "unbound symbol: "@ + name
}

/// The reason given when addition gets an argument that is no number.
pub open spec fn add_expects_numbers() -> Seq<char> {
    "+ expects numbers"@
}

/// The reason given when subtraction gets no argument, or one that is no
/// number.
pub open spec fn sub_expects_numbers() -> Seq<char> {
    "- expects numbers"@
}

/// The reason for which a function of the interpreter rejects arguments.
pub open spec fn expects_numbers(native: Native) -> Seq<char> {
    match native {
        Native::Add => add_expects_numbers(),
        Native::Sub => sub_expects_numbers(),
    }
}

/// Whether every one of `args` is a number.
pub open spec fn all_numbers(args: Seq<ExprView>) -> bool {
    forall|i: int| 0 <= i < args.len() ==> #[trigger] args[i] is Number
}

/// The sum of the numbers `args`, taken from the left and starting at zero:
/// `((0 + a) + b) + c`.
pub open spec fn sum_of(args: Seq<ExprView>) -> NumView
    decreases args.len(),
{
    if args.len() == 0 {
        NumView::Zero
    } else {
        NumView::Sum(Box::new(sum_of(args.drop_last())), Box::new(args.last()->Number_0))
    }
}

/// The first of the numbers `args` less each of the others, taken from the
/// left: `(a - b) - c`.
pub open spec fn difference_of(args: Seq<ExprView>) -> NumView
    decreases args.len(),
{
    if args.len() <= 1 {
        args[0]->Number_0
    } else {
        NumView::Difference(
            Box::new(difference_of(args.drop_last())),
            Box::new(args.last()->Number_0),
        )
    }
}

/// What a function of the interpreter yields for `args`.
pub open spec fn apply(native: Native, args: Seq<ExprView>) -> Outcome {
    match native {
        Native::Add => if all_numbers(args) {
            Ok(ExprView::Number(sum_of(args)))
        } else {
            Err(add_expects_numbers())
        },
        Native::Sub => if args.len() > 0 && all_numbers(args) {
            Ok(ExprView::Number(difference_of(args)))
        } else {
            Err(sub_expects_numbers())
        },
    }
}

/// The value of `expr` in an environment with the visible bindings `env`.
///
/// A number and a function are their own values. A symbol has the value
/// that it is bound to. A list is a call: its first element must have a
/// function as its value, and that function is applied to the values of the
/// other elements.
pub open spec fn value_of(expr: ExprView, env: Map<Seq<char>, ExprView>) -> Outcome
    decreases expr, 0int,
{
    match expr {
        ExprView::Number(_) => Ok(expr),
        ExprView::Func(_) => Ok(expr),
        ExprView::Symbol(name) => if env.contains_key(name) {
            Ok(env[name])
        } else {
            Err(unbound_symbol(name))
        },
        ExprView::List(items) => if items.len() == 0 {
            Err(empty_list())
        } else {
            match value_of(items[0], env) {
                Err(reason) => Err(reason),
                Ok(ExprView::Func(native)) => match values_of(items, items.len() - 1, env) {
                    Err(reason) => Err(reason),
                    Ok(args) => apply(native, args),
                },
                Ok(_) => Err(not_a_function()),
            }
        },
    }
}

/// The values of the first `count` arguments of the call `items`, from left
/// to right, or the reason of the first of them that has no value. The
/// first element of `items` is the operator; the arguments follow it.
pub open spec fn values_of(
    items: Seq<ExprView>,
    count: int,
    env: Map<Seq<char>, ExprView>,
) -> Result<Seq<ExprView>, Seq<char>>
    decreases items, count,
{
    if 0 < count < items.len() {
        match values_of(items, count - 1, env) {
            Err(reason) => Err(reason),
            Ok(values) => match value_of(items[count], env) {
                Err(reason) => Err(reason),
                Ok(value) => Ok(values.push(value)),
            },
        }
    } else {
        Ok(Seq::empty())
    }
}

/// The mathematical form of what evaluation returns.
pub open spec fn outcome(result: Result<Expr, Error>) -> Outcome {
    match result {
        Ok(value) => Ok(value@),
        Err(error) => Err(error@),
    }
}

/// Adds the numbers `args` up, from the left and starting at zero.
fn sum(args: Vec<Expr>) -> (result: Result<Expr, Error>)
    ensures
        outcome(result) == apply(Native::Add, views(args@)),
{
    let ghost all = views(args@);
    let mut total = Num::Zero;
    for arg in it: args
        invariant
            it.seq() == args@,
            all == views(args@),
            all_numbers(all.take(it.index() as int)),
            total@ == sum_of(all.take(it.index() as int)),
    {
        let ghost i = it.index() as int;
        assert(all.take(i + 1).drop_last() =~= all.take(i));
        match arg {
            Expr::Number(number) => {
                total = Num::Sum(Box::new(total), Box::new(number));
            },
            _ => {
                return Err(Error::new("+ expects numbers"));
            },
        }
    }
    assert(all.take(all.len() as int) =~= all);
    Ok(Expr::Number(total))
}

/// Takes each of the numbers `args` after the first from the first, from
/// the left.
fn difference(args: Vec<Expr>) -> (result: Result<Expr, Error>)
    ensures
        outcome(result) == apply(Native::Sub, views(args@)),
{
    let ghost all = views(args@);
    let mut total: Option<Num> = None;
    for arg in it: args
        invariant
            it.seq() == args@,
            all == views(args@),
            all_numbers(all.take(it.index() as int)),
            total is None <==> it.index() == 0,
            total matches Some(left) ==> left@ == difference_of(all.take(it.index() as int)),
    {
        let ghost i = it.index() as int;
        assert(all.take(i + 1).drop_last() =~= all.take(i));
        match arg {
            Expr::Number(number) => {
                total = Some(
                    match total {
                        None => number,
                        Some(left) => Num::Difference(Box::new(left), Box::new(number)),
                    },
                );
            },
            _ => {
                return Err(Error::new("- expects numbers"));
            },
        }
    }
    assert(all.take(all.len() as int) =~= all);
    match total {
        Some(left) => Ok(Expr::Number(left)),
        None => Err(Error::new("- expects numbers")),
    }
}

impl Native {
    /// Applies the function to `args`.
    ///
    /// Addition yields the sum of its arguments, and zero where there are
    /// none. Subtraction yields its first argument less each of the others,
    /// and fails where there is none. Both fail on an argument that is no
    /// number.
    pub fn call(self, args: Vec<Expr>) -> (result: Result<Expr, Error>)
        ensures
            outcome(result) == apply(self, views(args@)),
            all_well_formed(views(args@)) ==> (result matches Ok(value) ==> value@.well_formed()),
    {
        proof {
            if all_well_formed(views(args@)) {
                lemma_apply_well_formed(self, views(args@));
            }
        }
        match self {
            Native::Add => sum(args),
            Native::Sub => difference(args),
        }
    }
}

/// The reason for which `name` has no value.
fn unbound(name: &str) -> (error: Error)
    ensures
        error@ == unbound_symbol(name@),
{
    let mut reason = String::from_str("unbound symbol: ");
    reason.append(name);
    Error::Reason(reason)
}

/// Evaluates `expr` in `env`, which stays as it is.
///
/// A number and a function evaluate to themselves, a symbol to what `env`
/// binds it to. A list is a call: its first element is evaluated and must
/// yield a function; the other elements are then evaluated from left to
/// right, and the function is applied to their values. The first failure
/// ends the evaluation and is the result.
pub fn eval(expr: Expr, env: &Env) -> (result: Result<Expr, Error>)
    ensures
        outcome(result) == value_of(expr@, env@),
        expr@.well_formed() && well_formed_bindings(env@) ==> (result matches Ok(value)
            ==> value@.well_formed()),
    decreases expr,
{
    proof {
        if expr@.well_formed() && well_formed_bindings(env@) {
            lemma_value_of_well_formed(expr@, env@);
        }
    }
    match expr {
        Expr::Number(number) => Ok(Expr::Number(number)),
        Expr::Func(native) => Ok(Expr::Func(native)),
        Expr::Symbol(name) => match env.lookup(name.as_str()) {
            Some(value) => Ok(value.clone()),
            None => Err(unbound(name.as_str())),
        },
        Expr::List(list) => {
            let ghost items = views(list@);
            proof {
                lemma_list_view(list);
            }
            let mut operator: Option<Native> = None;
            let mut args: Vec<Expr> = Vec::new();
            for item in it: list
                invariant
                    it.seq() == list@,
                    items == views(list@),
                    expr is List,
                    expr->List_0 == list,
                    expr@ == ExprView::List(items),
                    operator is None <==> it.index() == 0,
                    operator is None ==> args@.len() == 0,
                    operator matches Some(native) ==> {
                        &&& value_of(items[0], env@) == Ok::<ExprView, Seq<char>>(
                            ExprView::Func(native),
                        )
                        &&& values_of(items, it.index() - 1, env@) == Ok::<
                            Seq<ExprView>,
                            Seq<char>,
                        >(views(args@))
                    },
            {
                let ghost i = it.index() as int;
                proof {
                    vstd::std_specs::vec::axiom_vec_index_decreases(list, i);
                }
                let value = match eval(item, env) {
                    Ok(value) => value,
                    Err(error) => {
                        proof {
                            if i > 0 {
                                lemma_values_of_fail_fast(items, i, items.len() - 1, env@);
                            }
                        }
                        return Err(error);
                    },
                };
                match operator {
                    None => match value {
                        Expr::Func(native) => {
                            operator = Some(native);
                            assert(views(args@) =~= Seq::empty());
                        },
                        _ => {
                            return Err(Error::new("not a function"));
                        },
                    },
                    Some(_) => {
                        assert(views(args@.push(value)) =~= views(args@).push(value@));
                        args.push(value);
                    },
                }
            }
            match operator {
                Some(native) => native.call(args),
                None => Err(Error::new("empty list")),
            }
        },
    }
}

/// Evaluation is a function of the expression and of the visible bindings:
/// two results for expressions and environments that read the same are the
/// same value or the same failure.
pub proof fn lemma_eval_deterministic(
    first: Expr,
    second: Expr,
    first_env: Env,
    second_env: Env,
    first_result: Result<Expr, Error>,
    second_result: Result<Expr, Error>,
)
    requires
        first@ == second@,
        first_env@ == second_env@,
        outcome(first_result) == value_of(first@, first_env@),
        outcome(second_result) == value_of(second@, second_env@),
    ensures
        outcome(first_result) == outcome(second_result),
{
}

/// A function of the interpreter fails on an argument that is no number,
/// wherever among the arguments it stands, and gives its own reason.
pub proof fn lemma_apply_rejects_non_numbers(native: Native, args: Seq<ExprView>, at: int)
    requires
        0 <= at < args.len(),
        !(args[at] is Number),
    ensures
        apply(native, args) == Err::<ExprView, Seq<char>>(expects_numbers(native)),
{
}

/// Where the first `count` arguments of a call have values, each of them
/// has one, and the values are as many as the arguments and in their order.
pub proof fn lemma_values_of_each(items: Seq<ExprView>, count: int, env: Map<Seq<char>, ExprView>)
    requires
        0 <= count < items.len(),
    ensures
        values_of(items, count, env) matches Ok(values) ==> {
            &&& values.len() == count
            &&& forall|i: int|
                0 <= i < count ==> value_of(items[i + 1], env) == Ok::<ExprView, Seq<char>>(
                    #[trigger] values[i],
                )
        },
    decreases count,
{
    if count > 0 {
        lemma_values_of_each(items, count - 1, env);
    }
}

/// Where each of the first `count` arguments of a call has a value, the
/// values of these arguments are those values, in the order of the
/// arguments.
pub proof fn lemma_values_of_all(items: Seq<ExprView>, count: int, env: Map<Seq<char>, ExprView>)
    requires
        0 <= count < items.len(),
        forall|i: int| 0 < i <= count ==> #[trigger] value_of(items[i], env) is Ok,
    ensures
        values_of(items, count, env) matches Ok(values) && values.len() == count && forall|i: int|
            0 <= i < count ==> #[trigger] values[i] == value_of(items[i + 1], env)->Ok_0,
    decreases count,
{
    if count > 0 {
        lemma_values_of_all(items, count - 1, env);
        assert(value_of(items[count], env) is Ok);
    }
}

/// Once an argument has no value, the arguments after it are not looked at:
/// the call has no values, for the same reason.
pub proof fn lemma_values_of_fail_fast(
    items: Seq<ExprView>,
    failed: int,
    count: int,
    env: Map<Seq<char>, ExprView>,
)
    requires
        values_of(items, failed, env) is Err,
        failed <= count < items.len(),
    ensures
        values_of(items, count, env) == values_of(items, failed, env),
    decreases count,
{
    if failed < count {
        lemma_values_of_fail_fast(items, failed, count - 1, env);
    }
}

/// The first argument that has no value decides: the arguments of the call
/// have no values, for the reason for which that argument has none.
pub proof fn lemma_values_of_first_failure(
    items: Seq<ExprView>,
    count: int,
    env: Map<Seq<char>, ExprView>,
    at: int,
)
    requires
        0 < at <= count < items.len(),
        value_of(items[at], env) is Err,
        forall|i: int| 0 < i < at ==> #[trigger] value_of(items[i], env) is Ok,
    ensures
        values_of(items, count, env) == Err::<Seq<ExprView>, Seq<char>>(
            value_of(items[at], env)->Err_0,
        ),
{
    lemma_values_of_all(items, at - 1, env);
    lemma_values_of_fail_fast(items, at, count, env);
}

/// A call whose operator is a function of the interpreter, and whose
/// arguments all have values, fails with the function's own reason if one of
/// those values is no number.
pub proof fn lemma_call_rejects_non_numbers(
    items: Seq<ExprView>,
    env: Map<Seq<char>, ExprView>,
    native: Native,
    at: int,
)
    requires
        value_of(items[0], env) == Ok::<ExprView, Seq<char>>(ExprView::Func(native)),
        forall|i: int| 0 < i < items.len() ==> #[trigger] value_of(items[i], env) is Ok,
        0 < at < items.len(),
        !(value_of(items[at], env)->Ok_0 is Number),
    ensures
        value_of(ExprView::List(items), env) == Err::<ExprView, Seq<char>>(
            expects_numbers(native),
        ),
{
    lemma_values_of_all(items, items.len() - 1, env);
    let args = values_of(items, items.len() - 1, env)->Ok_0;
    lemma_apply_rejects_non_numbers(native, args, at - 1);
}

/// What a function of the interpreter yields from numbers that have values
/// is a number that has a value.
pub proof fn lemma_apply_well_formed(native: Native, args: Seq<ExprView>)
    requires
        all_well_formed(args),
    ensures
        apply(native, args) matches Ok(value) ==> value.well_formed(),
    decreases args.len(),
{
    if args.len() > 0 && all_numbers(args) {
        let front = args.drop_last();
        assert(all_numbers(front) && all_well_formed(front));
        lemma_apply_well_formed(native, front);
    }
}

/// Evaluation keeps numbers well-formed: if every number in the expression
/// and in the bindings has a value, so has every number in the result.
pub proof fn lemma_value_of_well_formed(expr: ExprView, env: Map<Seq<char>, ExprView>)
    requires
        expr.well_formed(),
        well_formed_bindings(env),
    ensures
        value_of(expr, env) matches Ok(value) ==> value.well_formed(),
    decreases expr,
{
    if let ExprView::List(items) = expr {
        if items.len() > 0 {
            if let Ok(ExprView::Func(native)) = value_of(items[0], env) {
                if let Ok(args) = values_of(items, items.len() - 1, env) {
                    lemma_values_of_each(items, items.len() - 1, env);
                    assert forall|i: int| 0 <= i < args.len() implies (
                    #[trigger] args[i]).well_formed() by {
                        lemma_value_of_well_formed(items[i + 1], env);
                    }
                    lemma_apply_well_formed(native, args);
                }
            }
        }
    }
}

} // verus!
