//! Expressions, the values of the language, and errors.
use crate::number::{Num, NumView};
use vstd::prelude::*;

verus! {

/// A function that the interpreter itself provides.
#[derive(Clone, Copy, Debug, PartialEq, Eq, Structural)]
pub enum Native {
    /// The sum of the arguments.
    Add,
    /// The first argument less each of the others.
    Sub,
}

/// An expression: what the parser builds and what evaluation yields.
#[derive(Debug, PartialEq, Eq)]
pub enum Expr {
    /// A number.
    Number(Num),
    /// The name of a variable or of an operator.
    Symbol(String),
    /// A sequence of expressions; as code, a call of its first element.
    List(Vec<Expr>),
    /// A function of the interpreter.
    Func(Native),
}

/// The mathematical form of an `Expr`.
pub ghost enum ExprView {
    Number(NumView),
    Symbol(Seq<char>),
    List(Seq<ExprView>),
    Func(Native),
}

impl Expr {
    /// The expression as a mathematical value.
    pub open spec fn model(&self) -> ExprView
        decreases self,
    {
        match self {
            Expr::Number(number) => ExprView::Number(number@),
            Expr::Symbol(name) => ExprView::Symbol(name@),
            Expr::List(items) => ExprView::List(
                Seq::new(
                    items@.len(),
                    |i: int|
                        if 0 <= i < items@.len() {
                            items@[i].model()
                        } else {
                            ExprView::List(Seq::empty())
                        },
                ),
            ),
            Expr::Func(native) => ExprView::Func(*native),
        }
    }
}

impl View for Expr {
    type V = ExprView;

    open spec fn view(&self) -> ExprView {
        self.model()
    }
}

/// The mathematical forms of a sequence of expressions.
pub open spec fn views(items: Seq<Expr>) -> Seq<ExprView> {
    Seq::new(items.len(), |i: int| items[i]@)
}

/// A list is seen as the sequence of what its elements are seen as.
pub proof fn lemma_list_view(items: Vec<Expr>)
    ensures
        Expr::List(items)@ == ExprView::List(views(items@)),
{
    assert(Expr::List(items)@->List_0 =~= views(items@));
}

impl ExprView {
    /// Whether every number in the expression has a value: each of their
    /// literals is a literal of a number.
    pub open spec fn well_formed(self) -> bool
        decreases self,
    {
        match self {
            ExprView::Number(number) => number.well_formed(),
            ExprView::List(items) => forall|i: int|
                0 <= i < items.len() ==> (#[trigger] items[i]).well_formed(),
            _ => true,
        }
    }
}

/// Whether every number in every one of `items` has a value.
pub open spec fn all_well_formed(items: Seq<ExprView>) -> bool {
    forall|i: int| 0 <= i < items.len() ==> (#[trigger] items[i]).well_formed()
}

impl Clone for Expr {
    fn clone(&self) -> (copy: Self)
        ensures
            copy@ == self@,
        decreases self,
    {
        match self {
            Expr::Number(number) => Expr::Number(number.clone()),
            Expr::Symbol(name) => Expr::Symbol(name.clone()),
            Expr::List(items) => {
                let mut copies: Vec<Expr> = Vec::new();
                let mut i: usize = 0;
                while i < items.len()
                    invariant
                        i <= items@.len(),
                        copies@.len() == i,
                        forall|j: int| 0 <= j < i ==> copies@[j]@ == items@[j]@,
                        *self is List,
                        self->List_0 == *items,
                    decreases items@.len() - i,
                {
                    proof {
                        vstd::std_specs::vec::axiom_vec_index_decreases(*items, i as int);
                    }
                    let copy = items[i].clone();
                    copies.push(copy);
                    i = i + 1;
                }
                proof {
                    lemma_list_view(*items);
                    lemma_list_view(copies);
                    assert(views(copies@) =~= views(items@));
                }
                Expr::List(copies)
            },
            Expr::Func(native) => Expr::Func(*native),
        }
    }
}

/// Why the parser or the evaluator gave up.
#[derive(Debug, PartialEq, Eq)]
pub enum Error {
    /// The reason, in words.
    Reason(String),
}

impl View for Error {
    type V = Seq<char>;

    open spec fn view(&self) -> Seq<char> {
        match self {
            Error::Reason(reason) => reason@,
        }
    }
}

impl Error {
    /// An error with the given reason.
    pub fn new(reason: &str) -> (error: Error)
        ensures
            error@ == reason@,
    {
        Error::Reason(String::from_str(reason))
    }

    /// The reason as a string.
    pub fn reason(&self) -> (text: &str)
        ensures
            text@ == self@,
    {
        match self {
            Error::Reason(reason) => reason.as_str(),
        }
    }
}

} // verus!
