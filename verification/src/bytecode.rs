use vstd::prelude::*;
use crate::ast::{Expr, ExprModel};

verus! {

/// IEEE-754 bit pattern of the value one.
pub const ONE_BITS: u64 = 0x3FF0_0000_0000_0000;

/// IEEE-754 bit pattern of the fixed bias added to every reciprocal's
/// denominator (one part in a hundred thousand).  The bias keeps an exact
/// zero divisor from producing an infinity, at the cost of a small
/// systematic offset in every reciprocal; both evaluation paths apply it
/// identically.
pub const EPSILON_BITS: u64 = 0x3EE4_F8B5_88E3_68F1;

/// One instruction of the compiled function body: a stack machine over
/// 64-bit floats, each held here by its bit pattern.
#[derive(Debug, PartialEq, Eq, Structural, Clone, Copy)]
pub enum Instr {
    /// Push the float with the given bits.
    Const(u64),
    /// Negate the top of the stack.
    Neg,
    /// Pop two entries, push their sum.
    Add,
    /// Pop two entries, push their product.
    Mul,
    /// Pop the divisor then the dividend, push their quotient.
    Div,
}

/// The instruction sequence for an expression: post-order, children before
/// parents, one operator per node, with no folding or elimination.  A
/// reciprocal becomes `one / (operand + epsilon)`.
pub open spec fn code_of(e: ExprModel<u64>) -> Seq<Instr>
    decreases e,
{
    match e {
        ExprModel::Number(b) => seq![Instr::Const(b)],
        ExprModel::Negated(x) => code_of(*x) + seq![Instr::Neg],
        ExprModel::Reciprocal(x) => seq![Instr::Const(ONE_BITS)] + code_of(*x) + seq![
            Instr::Const(EPSILON_BITS),
            Instr::Add,
            Instr::Div,
        ],
        ExprModel::Add(l, r) => code_of(*l) + code_of(*r) + seq![Instr::Add],
        ExprModel::Multiply(l, r) => code_of(*l) + code_of(*r) + seq![Instr::Mul],
    }
}

/// The arithmetic term a computation stands for.  The host's float
/// operations interpret each node; here terms are kept symbolic, so that
/// statements about both evaluation paths do not depend on float semantics.
pub enum Term {
    Const(u64),
    Neg(Box<Term>),
    Add(Box<Term>, Box<Term>),
    Mul(Box<Term>, Box<Term>),
    Div(Box<Term>, Box<Term>),
}

/// The term the tree-walking interpreter computes for an expression: its
/// own shape, with the reciprocal's epsilon bias made explicit.
pub open spec fn denote(e: ExprModel<u64>) -> Term
    decreases e,
{
    match e {
        ExprModel::Number(b) => Term::Const(b),
        ExprModel::Negated(x) => Term::Neg(Box::new(denote(*x))),
        ExprModel::Reciprocal(x) => Term::Div(
            Box::new(Term::Const(ONE_BITS)),
            Box::new(Term::Add(Box::new(denote(*x)), Box::new(Term::Const(EPSILON_BITS)))),
        ),
        ExprModel::Add(l, r) => Term::Add(Box::new(denote(*l)), Box::new(denote(*r))),
        ExprModel::Multiply(l, r) => Term::Mul(Box::new(denote(*l)), Box::new(denote(*r))),
    }
}

/// One step of the symbolic stack machine.
pub open spec fn step(i: Instr, st: Seq<Term>) -> Option<Seq<Term>> {
    match i {
        Instr::Const(b) => Some(st.push(Term::Const(b))),
        Instr::Neg => if st.len() >= 1 {
            Some(st.take(st.len() - 1).push(Term::Neg(Box::new(st.last()))))
        } else {
            None
        },
        Instr::Add => if st.len() >= 2 {
            Some(
                st.take(st.len() - 2).push(
                    Term::Add(Box::new(st[st.len() - 2]), Box::new(st.last())),
                ),
            )
        } else {
            None
        },
        Instr::Mul => if st.len() >= 2 {
            Some(
                st.take(st.len() - 2).push(
                    Term::Mul(Box::new(st[st.len() - 2]), Box::new(st.last())),
                ),
            )
        } else {
            None
        },
        Instr::Div => if st.len() >= 2 {
            Some(
                st.take(st.len() - 2).push(
                    Term::Div(Box::new(st[st.len() - 2]), Box::new(st.last())),
                ),
            )
        } else {
            None
        },
    }
}

/// Run the symbolic machine over a whole instruction sequence.
pub open spec fn run_code(code: Seq<Instr>, st: Seq<Term>) -> Option<Seq<Term>>
    decreases code.len(),
{
    if code.len() == 0 {
        Some(st)
    } else {
        match step(code[0], st) {
            None => None,
            Some(st2) => run_code(code.subrange(1, code.len() as int), st2),
        }
    }
}

proof fn lemma_run_code_app(a: Seq<Instr>, b: Seq<Instr>, st: Seq<Term>)
    ensures
        run_code(a + b, st) == (match run_code(a, st) {
            None => None::<Seq<Term>>,
            Some(st2) => run_code(b, st2),
        }),
    decreases a.len(),
{
    if a.len() == 0 {
        assert(a + b =~= b);
    } else {
        assert((a + b)[0] == a[0]);
        match step(a[0], st) {
            None => {
                assert((a + b).len() > 0);
            },
            Some(st2) => {
                assert((a + b).subrange(1, (a + b).len() as int) =~= a.subrange(
                    1,
                    a.len() as int,
                ) + b);
                lemma_run_code_app(a.subrange(1, a.len() as int), b, st2);
            },
        }
    }
}

/// Backend parity, stated over any starting stack: running the compiled
/// code of an expression never faults and pushes exactly the term the
/// interpreter computes for it.
#[verifier::rlimit(80)]
pub proof fn lemma_code_evaluates(e: ExprModel<u64>, st: Seq<Term>)
    ensures
        run_code(code_of(e), st) == Some(st.push(denote(e))),
    decreases e,
{
    reveal_with_fuel(run_code, 5);
    match e {
        ExprModel::Number(b) => {
            let c = seq![Instr::Const(b)];
            assert(code_of(e) == c);
            assert(denote(e) == Term::Const(b));
            assert(c.subrange(1, 1) =~= Seq::<Instr>::empty());
            assert(run_code(Seq::<Instr>::empty(), st.push(Term::Const(b))) == Some(
                st.push(Term::Const(b)),
            ));
            assert(run_code(c, st) == Some(st.push(Term::Const(b))));
            assert(run_code(code_of(e), st) == Some(st.push(denote(e))));
        },
        ExprModel::Negated(x) => {
            lemma_code_evaluates(*x, st);
            lemma_run_code_app(code_of(*x), seq![Instr::Neg], st);
            let st1 = st.push(denote(*x));
            let c = seq![Instr::Neg];
            assert(c.subrange(1, 1) =~= Seq::<Instr>::empty());
            assert(st1.take(st1.len() - 1) =~= st);
            assert(st1.last() == denote(*x));
            assert(run_code(code_of(e), st) == Some(st.push(denote(e))));
        },
        ExprModel::Reciprocal(x) => {
            let a = seq![Instr::Const(ONE_BITS)];
            let m = code_of(*x);
            let b = seq![Instr::Const(EPSILON_BITS), Instr::Add, Instr::Div];
            assert(code_of(e) == a + m + b);
            lemma_run_code_app(a + m, b, st);
            lemma_run_code_app(a, m, st);
            assert(a.subrange(1, 1) =~= Seq::<Instr>::empty());
            let st1 = st.push(Term::Const(ONE_BITS));
            lemma_code_evaluates(*x, st1);
            let st2 = st1.push(denote(*x));
            let st3 = st2.push(Term::Const(EPSILON_BITS));
            assert(b.subrange(1, 3) =~= seq![Instr::Add, Instr::Div]);
            assert(seq![Instr::Add, Instr::Div].subrange(1, 2) =~= seq![Instr::Div]);
            assert(seq![Instr::Div].subrange(1, 1) =~= Seq::<Instr>::empty());
            let sum = Term::Add(Box::new(denote(*x)), Box::new(Term::Const(EPSILON_BITS)));
            let st4 = st3.take(st3.len() - 2).push(sum);
            assert(st3.take(st3.len() - 2) =~= st1);
            assert(st4 =~= st.push(Term::Const(ONE_BITS)).push(sum));
            let quot = Term::Div(Box::new(Term::Const(ONE_BITS)), Box::new(sum));
            assert(st4.take(st4.len() - 2) =~= st);
            assert(st4[st4.len() - 2] == Term::Const(ONE_BITS));
            assert(st4.last() == sum);
            assert(denote(e) == quot);
            assert(run_code(code_of(e), st) == Some(st.push(denote(e))));
        },
        ExprModel::Add(l, r) => {
            let cl = code_of(*l);
            let cr = code_of(*r);
            let b = seq![Instr::Add];
            assert(code_of(e) == cl + cr + b);
            lemma_run_code_app(cl + cr, b, st);
            lemma_run_code_app(cl, cr, st);
            lemma_code_evaluates(*l, st);
            let st1 = st.push(denote(*l));
            lemma_code_evaluates(*r, st1);
            let st2 = st1.push(denote(*r));
            assert(b.subrange(1, 1) =~= Seq::<Instr>::empty());
            assert(st2.take(st2.len() - 2) =~= st);
            assert(st2[st2.len() - 2] == denote(*l));
            assert(st2.last() == denote(*r));
            assert(run_code(code_of(e), st) == Some(st.push(denote(e))));
        },
        ExprModel::Multiply(l, r) => {
            let cl = code_of(*l);
            let cr = code_of(*r);
            let b = seq![Instr::Mul];
            assert(code_of(e) == cl + cr + b);
            lemma_run_code_app(cl + cr, b, st);
            lemma_run_code_app(cl, cr, st);
            lemma_code_evaluates(*l, st);
            let st1 = st.push(denote(*l));
            lemma_code_evaluates(*r, st1);
            let st2 = st1.push(denote(*r));
            assert(b.subrange(1, 1) =~= Seq::<Instr>::empty());
            assert(st2.take(st2.len() - 2) =~= st);
            assert(st2[st2.len() - 2] == denote(*l));
            assert(st2.last() == denote(*r));
            assert(run_code(code_of(e), st) == Some(st.push(denote(e))));
        },
    }
}

/// Backend parity: on an empty stack, the compiled code of an expression
/// leaves exactly one result, the interpreter's own term for it.
pub proof fn lemma_backend_parity(e: ExprModel<u64>)
    ensures
        run_code(code_of(e), Seq::empty()) == Some(seq![denote(e)]),
{
    lemma_code_evaluates(e, Seq::empty());
    assert(Seq::empty().push(denote(e)) =~= seq![denote(e)]);
}

/// Append the instruction sequence for `e` to `out`.
pub fn codegen(out: &mut Vec<Instr>, e: &Expr<u64>)
    ensures
        final(out)@ == old(out)@ + code_of(e@),
    decreases e,
{
    match e {
        Expr::Number(b) => {
            out.push(Instr::Const(*b));
            assert(out@ =~= old(out)@ + code_of(e@));
        },
        Expr::Negated(x) => {
            codegen(out, x);
            out.push(Instr::Neg);
            assert(out@ =~= old(out)@ + code_of(e@));
        },
        Expr::Reciprocal(x) => {
            out.push(Instr::Const(ONE_BITS));
            codegen(out, x);
            out.push(Instr::Const(EPSILON_BITS));
            out.push(Instr::Add);
            out.push(Instr::Div);
            assert(out@ =~= old(out)@ + code_of(e@));
        },
        Expr::Add(l, r) => {
            codegen(out, l);
            codegen(out, r);
            out.push(Instr::Add);
            assert(out@ =~= old(out)@ + code_of(e@));
        },
        Expr::Multiply(l, r) => {
            codegen(out, l);
            codegen(out, r);
            out.push(Instr::Mul);
            assert(out@ =~= old(out)@ + code_of(e@));
        },
    }
}

} // verus!
