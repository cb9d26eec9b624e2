use vstd::prelude::*;

verus! {

/// An arithmetic expression tree.
///
/// The leaf payload `L` is chosen by the pipeline stage: the parser produces
/// trees whose leaves hold the decimal literal text (`Vec<u8>`), while the
/// code generator consumes trees whose leaves hold the IEEE-754 bit pattern
/// of the literal's value (`u64`).  Subtraction and division are not node
/// kinds: `a - b` is represented as `Add(a, Negated(b))` and `a / b` as
/// `Multiply(a, Reciprocal(b))`.
#[derive(Debug, PartialEq)]
#[verifier::reject_recursive_types(L)]
pub enum Expr<L> {
    Number(L),
    Negated(Box<Expr<L>>),
    Reciprocal(Box<Expr<L>>),
    Add(Box<Expr<L>>, Box<Expr<L>>),
    Multiply(Box<Expr<L>>, Box<Expr<L>>),
}

/// The mathematical model of an expression tree: the same shape, with each
/// leaf payload replaced by its own model.
#[verifier::reject_recursive_types(V)]
pub enum ExprModel<V> {
    Number(V),
    Negated(Box<ExprModel<V>>),
    Reciprocal(Box<ExprModel<V>>),
    Add(Box<ExprModel<V>>, Box<ExprModel<V>>),
    Multiply(Box<ExprModel<V>>, Box<ExprModel<V>>),
}

impl<L: View> View for Expr<L> {
    type V = ExprModel<L::V>;

    open spec fn view(&self) -> ExprModel<L::V>
        decreases self,
    {
        match self {
            Expr::Number(l) => ExprModel::Number(l@),
            Expr::Negated(e) => ExprModel::Negated(Box::new((**e).view())),
            Expr::Reciprocal(e) => ExprModel::Reciprocal(Box::new((**e).view())),
            Expr::Add(l, r) => ExprModel::Add(Box::new((**l).view()), Box::new((**r).view())),
            Expr::Multiply(l, r) => ExprModel::Multiply(
                Box::new((**l).view()),
                Box::new((**r).view()),
            ),
        }
    }
}

} // verus!
