use vstd::prelude::*;
use crate::ast::{Expr, ExprModel};
use crate::parser::{
    digits_len, is_digit, is_literal, is_space, leaves_wf, skip_ws, spec_atom, spec_number,
    spec_parse, spec_product, spec_product_tail, spec_sum, spec_sum_tail, spec_unary, ws_len,
    MAX_NESTING,
};

verus! {

/// How deeply the rendering of a tree nests parentheses.
pub open spec fn nesting(e: ExprModel<Seq<u8>>) -> nat
    decreases e,
{
    match e {
        ExprModel::Number(_) => 0,
        ExprModel::Negated(x) => nesting(*x) + 1,
        ExprModel::Reciprocal(x) => nesting(*x) + 2,
        ExprModel::Add(l, r) => if nesting(*l) >= nesting(*r) {
            nesting(*l) + 1
        } else {
            nesting(*r) + 1
        },
        ExprModel::Multiply(l, r) => if nesting(*l) >= nesting(*r) {
            nesting(*l) + 1
        } else {
            nesting(*r) + 1
        },
    }
}

/// Whether any reciprocal node occurs in the tree.
pub open spec fn has_reciprocal(e: ExprModel<Seq<u8>>) -> bool
    decreases e,
{
    match e {
        ExprModel::Number(_) => false,
        ExprModel::Negated(x) => has_reciprocal(*x),
        ExprModel::Reciprocal(_) => true,
        ExprModel::Add(l, r) => has_reciprocal(*l) || has_reciprocal(*r),
        ExprModel::Multiply(l, r) => has_reciprocal(*l) || has_reciprocal(*r),
    }
}

/// A reciprocal has no surface syntax of its own: rendering writes it as a
/// division of one, so re-parsing yields the tree with each reciprocal
/// expanded into that product.  Everything else re-parses to itself.
pub open spec fn expand(e: ExprModel<Seq<u8>>) -> ExprModel<Seq<u8>>
    decreases e,
{
    match e {
        ExprModel::Number(t) => ExprModel::Number(t),
        ExprModel::Negated(x) => ExprModel::Negated(Box::new(expand(*x))),
        ExprModel::Reciprocal(x) => ExprModel::Multiply(
            Box::new(ExprModel::Number(seq![49u8])),
            Box::new(ExprModel::Reciprocal(Box::new(expand(*x)))),
        ),
        ExprModel::Add(l, r) => ExprModel::Add(Box::new(expand(*l)), Box::new(expand(*r))),
        ExprModel::Multiply(l, r) => ExprModel::Multiply(
            Box::new(expand(*l)),
            Box::new(expand(*r)),
        ),
    }
}

/// The fully parenthesized rendering of a tree: literals as they are, each
/// composite wrapped in parentheses, a reciprocal written as a division of
/// one.
pub open spec fn spec_render(e: ExprModel<Seq<u8>>) -> Seq<u8>
    decreases e,
{
    match e {
        ExprModel::Number(t) => t,
        ExprModel::Negated(x) => seq![45u8, 40u8] + spec_render(*x) + seq![41u8],
        ExprModel::Reciprocal(x) => seq![40u8, 49u8, 47u8, 40u8] + spec_render(*x) + seq![
            41u8,
            41u8,
        ],
        ExprModel::Add(l, r) => seq![40u8] + spec_render(*l) + seq![43u8] + spec_render(*r)
            + seq![41u8],
        ExprModel::Multiply(l, r) => seq![40u8] + spec_render(*l) + seq![42u8] + spec_render(*r)
            + seq![41u8],
    }
}

fn render_into(out: &mut Vec<u8>, e: &Expr<Vec<u8>>)
    ensures
        final(out)@ == old(out)@ + spec_render(e@),
    decreases e,
{
    let ghost init = out@;
    match e {
        Expr::Number(t) => {
            let mut q: usize = 0;
            while q < t.len()
                invariant
                    q <= t@.len(),
                    out@ == init + t@.take(q as int),
                decreases t@.len() - q,
            {
                out.push(t[q]);
                proof {
                    assert(out@ =~= init + t@.take(q + 1));
                }
                q = q + 1;
            }
            proof {
                assert(t@.take(t@.len() as int) =~= t@);
                assert(out@ =~= init + spec_render(e@));
            }
        },
        Expr::Negated(x) => {
            out.push(45);
            out.push(40);
            render_into(out, x);
            out.push(41);
            proof {
                assert(out@ =~= init + spec_render(e@));
            }
        },
        Expr::Reciprocal(x) => {
            out.push(40);
            out.push(49);
            out.push(47);
            out.push(40);
            render_into(out, x);
            out.push(41);
            out.push(41);
            proof {
                assert(out@ =~= init + spec_render(e@));
            }
        },
        Expr::Add(l, r) => {
            out.push(40);
            render_into(out, l);
            out.push(43);
            render_into(out, r);
            out.push(41);
            proof {
                assert(out@ =~= init + spec_render(e@));
            }
        },
        Expr::Multiply(l, r) => {
            out.push(40);
            render_into(out, l);
            out.push(42);
            render_into(out, r);
            out.push(41);
            proof {
                assert(out@ =~= init + spec_render(e@));
            }
        },
    }
}

/// Render a tree to its fully parenthesized text.
pub fn render(e: &Expr<Vec<u8>>) -> (r: Vec<u8>)
    ensures
        r@ == spec_render(e@),
{
    let mut out: Vec<u8> = Vec::new();
    render_into(&mut out, e);
    proof {
        assert(out@ =~= spec_render(e@));
    }
    out
}

} // verus!

verus! {

proof fn lemma_digits_len_exact(s: Seq<u8>, i: int, k: int)
    requires
        0 <= i <= k <= s.len(),
        forall|q: int| i <= q < k ==> is_digit(#[trigger] s[q]),
        k == s.len() || !is_digit(s[k]),
    ensures
        i + digits_len(s, i) == k,
    decreases k - i,
{
    if i < k {
        lemma_digits_len_exact(s, i + 1, k);
    }
}

/// The rendering of a literal leaf re-parses as exactly that literal.
proof fn lemma_rt_number(s: Seq<u8>, i: int, t: Seq<u8>)
    requires
        0 <= i,
        i + t.len() <= s.len(),
        s.subrange(i, i + t.len() as int) == t,
        is_literal(t),
        ({
            let j = i + t.len();
            j == s.len() || (!is_digit(s[j]) && s[j] != 46)
        }),
    ensures
        t.len() > 0,
        is_digit(s[i]),
        spec_number(s, i) == (t, i + t.len() as int),
{
    let lt = t.len() as int;
    assert forall|q: int| 0 <= q < lt implies s[i + q] == t[q] by {
        assert(s.subrange(i, i + lt)[q] == s[i + q]);
    }
    if all_digits_local(t) {
        assert forall|q: int| i <= q < i + lt implies is_digit(#[trigger] s[q]) by {
            assert(s[i + (q - i)] == t[q - i]);
        }
        lemma_digits_len_exact(s, i, i + lt);
        assert(s.subrange(i, i + lt) =~= t);
    } else {
        let k0 = choose|k0: int|
            0 < k0 < t.len() && #[trigger] t[k0] == 46 && crate::parser::all_digits(
                t.subrange(0, k0),
            ) && crate::parser::all_digits(t.subrange(k0 + 1, t.len() as int));
        assert(t.subrange(0, k0).len() == k0);
        assert forall|q: int| i <= q < i + k0 implies is_digit(#[trigger] s[q]) by {
            assert(t.subrange(0, k0)[q - i] == t[q - i]);
            assert(s[i + (q - i)] == t[q - i]);
        }
        assert(s[i + k0] == 46);
        assert(!is_digit(46));
        lemma_digits_len_exact(s, i, i + k0);
        let fr = t.subrange(k0 + 1, lt);
        assert(fr.len() > 0);
        assert forall|q: int| i + k0 + 1 <= q < i + lt implies is_digit(#[trigger] s[q]) by {
            assert(fr[q - (i + k0 + 1)] == t[q - i]);
            assert(s[i + (q - i)] == t[q - i]);
        }
        assert(is_digit(s[i + k0 + 1]));
        lemma_digits_len_exact(s, i + k0 + 1, i + lt);
        assert(s.subrange(i, i + lt) =~= t);
        assert(is_digit(t[0]));
    }
}

spec fn all_digits_local(t: Seq<u8>) -> bool {
    crate::parser::all_digits(t)
}

} // verus!

verus! {

/// Requires shared by the operand-level round-trip lemmas: the rendering of
/// `e` sits at `[i, i + len)` in `s`, and what follows cannot extend a
/// literal.
pub open spec fn rt_pre(s: Seq<u8>, i: int, e: ExprModel<Seq<u8>>, d: nat) -> bool {
    let j = i + spec_render(e).len();
    &&& 0 <= i
    &&& j <= s.len()
    &&& s.subrange(i, j as int) == spec_render(e)
    &&& leaves_wf(e)
    &&& nesting(e) <= d
    &&& (j == s.len() || (!is_digit(s[j]) && s[j] != 46))
}

#[verifier::rlimit(100)]
proof fn lemma_rt_negated(s: Seq<u8>, i: int, e: ExprModel<Seq<u8>>, d: nat)
    requires
        rt_pre(s, i, e, d),
        e is Negated,
    ensures
        spec_unary(s, i, d) == Some((expand(e), i + spec_render(e).len() as int)),
    decreases e, 0int,
{
    let x = *e->Negated_0;
    let rx = spec_render(x);
    let lx = rx.len() as int;
    let re = seq![45u8, 40u8] + rx + seq![41u8];
    assert(spec_render(e) == re);
    let le = spec_render(e).len() as int;
    assert(le == lx + 3);
    assert(re[0] == 45);
    assert(s[i] == 45) by {
        assert(s.subrange(i, i + le)[0] == re[0]);
    }
    assert(re[1] == 40);
    assert(s[i + 1] == 40) by {
        assert(s.subrange(i, i + le)[1] == re[1]);
    }
    assert(re[2 + lx] == 41);
    assert(s[i + 2 + lx] == 41) by {
        assert(s.subrange(i, i + le)[2 + lx] == re[2 + lx]);
    }
    assert(s.subrange(i + 2, i + 2 + lx) =~= rx) by {
        assert forall|q: int| 0 <= q < lx implies s.subrange(i + 2, i + 2 + lx)[q] == rx[q] by {
            assert(s.subrange(i + 2, i + 2 + lx)[q] == s[i + 2 + q]);
            assert(s.subrange(i, i + le)[2 + q] == s[i + (2 + q)]);
            assert(re[2 + q] == rx[q]);
        }
    }
    assert(nesting(e) == nesting(x) + 1);
    lemma_rt_sum(s, i + 2, x, (d - 1) as nat);
    assert(ws_len(s, i) == 0);
    assert(ws_len(s, i + 1) == 0);
    assert(ws_len(s, i + 2 + lx) == 0);
    assert(spec_sum(s, i + 2, (d - 1) as nat) == Some((expand(x), i + 2 + lx)));
    assert(i + 2 + lx < s.len());
    assert(spec_atom(s, i + 1, d) == Some((expand(x), i + 2 + lx + 1)));
    assert(spec_unary(s, i, d) == Some((ExprModel::Negated(Box::new(expand(x))), i + le)));
    assert(expand(e) == ExprModel::Negated(Box::new(expand(x))));
}

#[verifier::rlimit(100)]
proof fn lemma_rt_reciprocal(s: Seq<u8>, i: int, e: ExprModel<Seq<u8>>, d: nat)
    requires
        rt_pre(s, i, e, d),
        e is Reciprocal,
    ensures
        spec_unary(s, i, d) == Some((expand(e), i + spec_render(e).len() as int)),
    decreases e, 0int,
{
    let x = *e->Reciprocal_0;
    let rx = spec_render(x);
    let lx = rx.len() as int;
    let re = seq![40u8, 49u8, 47u8, 40u8] + rx + seq![41u8, 41u8];
    assert(spec_render(e) == re);
    let le = spec_render(e).len() as int;
    assert(le == lx + 6);
    assert(re[0] == 40);
    assert(s[i] == 40) by {
        assert(s.subrange(i, i + le)[0] == re[0]);
    }
    assert(re[1] == 49);
    assert(s[i + 1] == 49) by {
        assert(s.subrange(i, i + le)[1] == re[1]);
    }
    assert(re[2] == 47);
    assert(s[i + 2] == 47) by {
        assert(s.subrange(i, i + le)[2] == re[2]);
    }
    assert(re[3] == 40);
    assert(s[i + 3] == 40) by {
        assert(s.subrange(i, i + le)[3] == re[3]);
    }
    let m = i + 4 + lx;
    assert(re[4 + lx] == 41);
    assert(s[m] == 41) by {
        assert(s.subrange(i, i + le)[4 + lx] == re[4 + lx]);
    }
    assert(re[5 + lx] == 41);
    assert(s[m + 1] == 41) by {
        assert(s.subrange(i, i + le)[5 + lx] == re[5 + lx]);
    }
    assert(s.subrange(i + 4, m) =~= rx) by {
        assert forall|q: int| 0 <= q < lx implies s.subrange(i + 4, m)[q] == rx[q] by {
            assert(s.subrange(i + 4, m)[q] == s[i + 4 + q]);
            assert(s.subrange(i, i + le)[4 + q] == s[i + (4 + q)]);
            assert(re[4 + q] == rx[q]);
        }
    }
    assert(nesting(e) == nesting(x) + 2);
    lemma_rt_sum(s, i + 4, x, (d - 2) as nat);
    assert(spec_sum(s, i + 4, (d - 2) as nat) == Some((expand(x), m)));
    assert(s.subrange(i + 1, i + 2) =~= seq![49u8]) by {
        assert(s.subrange(i + 1, i + 2)[0] == s[i + 1]);
    }
    assert(crate::parser::all_digits(seq![49u8])) by {
        assert forall|k: int| 0 <= k < 1 implies is_digit(#[trigger] seq![49u8][k]) by {
            assert(seq![49u8][k] == 49);
        }
    }
    lemma_rt_number(s, i + 1, seq![49u8]);
    assert(spec_number(s, i + 1) == (seq![49u8], i + 2));
    assert(ws_len(s, i) == 0);
    assert(ws_len(s, i + 1) == 0);
    assert(ws_len(s, i + 2) == 0);
    assert(ws_len(s, i + 3) == 0);
    assert(ws_len(s, m) == 0);
    assert(ws_len(s, m + 1) == 0);
    assert(d >= 2);
    assert(spec_atom(s, i + 3, (d - 1) as nat) == Some((expand(x), m + 1)));
    assert(spec_unary(s, i + 3, (d - 1) as nat) == Some((expand(x), m + 1)));
    assert(spec_atom(s, i + 1, (d - 1) as nat) == Some((ExprModel::Number(seq![49u8]), i + 2)));
    assert(spec_unary(s, i + 1, (d - 1) as nat) == Some((ExprModel::Number(seq![49u8]), i + 2)));
    let acc2 = ExprModel::Multiply(
        Box::new(ExprModel::Number(seq![49u8])),
        Box::new(ExprModel::Reciprocal(Box::new(expand(x)))),
    );
    assert(spec_product_tail(s, m + 1, acc2, (d - 1) as nat) == Some((acc2, m + 1)));
    assert(spec_product_tail(s, i + 2, ExprModel::Number(seq![49u8]), (d - 1) as nat) == Some(
        (acc2, m + 1),
    ));
    assert(spec_product(s, i + 1, (d - 1) as nat) == Some((acc2, m + 1)));
    assert(spec_sum_tail(s, m + 1, acc2, (d - 1) as nat) == Some((acc2, m + 1)));
    assert(spec_sum(s, i + 1, (d - 1) as nat) == Some((acc2, m + 1)));
    assert(spec_atom(s, i, d) == Some((acc2, m + 2)));
    assert(spec_unary(s, i, d) == Some((acc2, i + le)));
    assert(expand(e) == acc2);
}

} // verus!

verus! {

#[verifier::rlimit(100)]
proof fn lemma_rt_add(s: Seq<u8>, i: int, e: ExprModel<Seq<u8>>, d: nat)
    requires
        rt_pre(s, i, e, d),
        e is Add,
    ensures
        spec_unary(s, i, d) == Some((expand(e), i + spec_render(e).len() as int)),
    decreases e, 0int,
{
    let l = *e->Add_0;
    let r = *e->Add_1;
    let rl = spec_render(l);
    let ll = rl.len() as int;
    let rr = spec_render(r);
    let lr = rr.len() as int;
    let re = seq![40u8] + rl + seq![43u8] + rr + seq![41u8];
    assert(spec_render(e) == re);
    let le = spec_render(e).len() as int;
    assert(le == ll + lr + 3);
    let p = i + 1 + ll;
    let q0 = p + 1 + lr;
    assert(re[0] == 40);
    assert(s[i] == 40) by {
        assert(s.subrange(i, i + le)[0] == re[0]);
    }
    assert(re[1 + ll] == 43);
    assert(s[p] == 43) by {
        assert(s.subrange(i, i + le)[1 + ll] == re[1 + ll]);
    }
    assert(re[2 + ll + lr] == 41);
    assert(s[q0] == 41) by {
        assert(s.subrange(i, i + le)[2 + ll + lr] == re[2 + ll + lr]);
    }
    assert(s.subrange(i + 1, i + 1 + ll) =~= rl) by {
        assert forall|q: int| 0 <= q < ll implies s.subrange(i + 1, i + 1 + ll)[q] == rl[q] by {
            assert(s.subrange(i + 1, i + 1 + ll)[q] == s[i + 1 + q]);
            assert(s.subrange(i, i + le)[1 + q] == s[i + (1 + q)]);
            assert(re[1 + q] == rl[q]);
        }
    }
    assert(s.subrange(p + 1, p + 1 + lr) =~= rr) by {
        assert forall|q: int| 0 <= q < lr implies s.subrange(p + 1, p + 1 + lr)[q] == rr[q] by {
            assert(s.subrange(p + 1, p + 1 + lr)[q] == s[p + 1 + q]);
            assert(s.subrange(i, i + le)[2 + ll + q] == s[i + (2 + ll + q)]);
            assert(re[2 + ll + q] == rr[q]);
        }
    }
    assert(nesting(l) < nesting(e) && nesting(r) < nesting(e));
    lemma_rt_unary(s, i + 1, l, (d - 1) as nat);
    lemma_rt_unary(s, p + 1, r, (d - 1) as nat);
    assert(ws_len(s, i) == 0);
    assert(ws_len(s, p) == 0);
    assert(ws_len(s, q0) == 0);
    assert(d >= 1);
    assert(spec_product_tail(s, p, expand(l), (d - 1) as nat) == Some((expand(l), p)));
    assert(spec_product(s, i + 1, (d - 1) as nat) == Some((expand(l), p)));
    assert(spec_product_tail(s, q0, expand(r), (d - 1) as nat) == Some((expand(r), q0)));
    assert(spec_product(s, p + 1, (d - 1) as nat) == Some((expand(r), q0)));
    let acc2 = ExprModel::Add(Box::new(expand(l)), Box::new(expand(r)));
    assert(spec_sum_tail(s, q0, acc2, (d - 1) as nat) == Some((acc2, q0)));
    assert(spec_sum_tail(s, p, expand(l), (d - 1) as nat) == Some((acc2, q0)));
    assert(spec_sum(s, i + 1, (d - 1) as nat) == Some((acc2, q0)));
    assert(spec_atom(s, i, d) == Some((acc2, q0 + 1)));
    assert(spec_unary(s, i, d) == Some((acc2, i + le)));
    assert(expand(e) == acc2);
}

#[verifier::rlimit(100)]
proof fn lemma_rt_multiply(s: Seq<u8>, i: int, e: ExprModel<Seq<u8>>, d: nat)
    requires
        rt_pre(s, i, e, d),
        e is Multiply,
    ensures
        spec_unary(s, i, d) == Some((expand(e), i + spec_render(e).len() as int)),
    decreases e, 0int,
{
    let l = *e->Multiply_0;
    let r = *e->Multiply_1;
    let rl = spec_render(l);
    let ll = rl.len() as int;
    let rr = spec_render(r);
    let lr = rr.len() as int;
    let re = seq![40u8] + rl + seq![42u8] + rr + seq![41u8];
    assert(spec_render(e) == re);
    let le = spec_render(e).len() as int;
    assert(le == ll + lr + 3);
    let p = i + 1 + ll;
    let q0 = p + 1 + lr;
    assert(re[0] == 40);
    assert(s[i] == 40) by {
        assert(s.subrange(i, i + le)[0] == re[0]);
    }
    assert(re[1 + ll] == 42);
    assert(s[p] == 42) by {
        assert(s.subrange(i, i + le)[1 + ll] == re[1 + ll]);
    }
    assert(re[2 + ll + lr] == 41);
    assert(s[q0] == 41) by {
        assert(s.subrange(i, i + le)[2 + ll + lr] == re[2 + ll + lr]);
    }
    assert(s.subrange(i + 1, i + 1 + ll) =~= rl) by {
        assert forall|q: int| 0 <= q < ll implies s.subrange(i + 1, i + 1 + ll)[q] == rl[q] by {
            assert(s.subrange(i + 1, i + 1 + ll)[q] == s[i + 1 + q]);
            assert(s.subrange(i, i + le)[1 + q] == s[i + (1 + q)]);
            assert(re[1 + q] == rl[q]);
        }
    }
    assert(s.subrange(p + 1, p + 1 + lr) =~= rr) by {
        assert forall|q: int| 0 <= q < lr implies s.subrange(p + 1, p + 1 + lr)[q] == rr[q] by {
            assert(s.subrange(p + 1, p + 1 + lr)[q] == s[p + 1 + q]);
            assert(s.subrange(i, i + le)[2 + ll + q] == s[i + (2 + ll + q)]);
            assert(re[2 + ll + q] == rr[q]);
        }
    }
    assert(nesting(l) < nesting(e) && nesting(r) < nesting(e));
    lemma_rt_unary(s, i + 1, l, (d - 1) as nat);
    lemma_rt_unary(s, p + 1, r, (d - 1) as nat);
    assert(ws_len(s, i) == 0);
    assert(ws_len(s, p) == 0);
    assert(ws_len(s, q0) == 0);
    assert(d >= 1);
    let acc2 = ExprModel::Multiply(Box::new(expand(l)), Box::new(expand(r)));
    assert(spec_product_tail(s, q0, acc2, (d - 1) as nat) == Some((acc2, q0)));
    assert(spec_product_tail(s, p, expand(l), (d - 1) as nat) == Some((acc2, q0)));
    assert(spec_product(s, i + 1, (d - 1) as nat) == Some((acc2, q0)));
    assert(spec_sum_tail(s, q0, acc2, (d - 1) as nat) == Some((acc2, q0)));
    assert(spec_sum(s, i + 1, (d - 1) as nat) == Some((acc2, q0)));
    assert(spec_atom(s, i, d) == Some((acc2, q0 + 1)));
    assert(spec_unary(s, i, d) == Some((acc2, i + le)));
    assert(expand(e) == acc2);
}

/// Re-parsing the rendering of `e` at the operand (unary) level yields its
/// expansion and stops exactly at the rendering's end.
#[verifier::rlimit(100)]
proof fn lemma_rt_unary(s: Seq<u8>, i: int, e: ExprModel<Seq<u8>>, d: nat)
    requires
        rt_pre(s, i, e, d),
    ensures
        spec_unary(s, i, d) == Some((expand(e), i + spec_render(e).len() as int)),
    decreases e, 1int,
{
    match e {
        ExprModel::Number(t) => {
            let le = spec_render(e).len() as int;
            assert(spec_render(e) == t);
            lemma_rt_number(s, i, t);
            assert(ws_len(s, i) == 0);
            assert(s[i] != 45);
            assert(spec_atom(s, i, d) == Some((ExprModel::Number(t), i + le)));
            assert(spec_unary(s, i, d) == Some((ExprModel::Number(t), i + le)));
            assert(expand(e) == ExprModel::Number(t));
        },
        ExprModel::Negated(_) => {
            lemma_rt_negated(s, i, e, d);
        },
        ExprModel::Reciprocal(_) => {
            lemma_rt_reciprocal(s, i, e, d);
        },
        ExprModel::Add(_, _) => {
            lemma_rt_add(s, i, e, d);
        },
        ExprModel::Multiply(_, _) => {
            lemma_rt_multiply(s, i, e, d);
        },
    }
}

/// Re-parsing the rendering of `e` at the sum level: the whole rendering is
/// consumed when a closing parenthesis or the end of the input follows it.
#[verifier::rlimit(100)]
proof fn lemma_rt_sum(s: Seq<u8>, i: int, e: ExprModel<Seq<u8>>, d: nat)
    requires
        0 <= i,
        i + spec_render(e).len() <= s.len(),
        s.subrange(i, i + spec_render(e).len() as int) == spec_render(e),
        leaves_wf(e),
        nesting(e) <= d,
        i + spec_render(e).len() == s.len() || s[i + spec_render(e).len()] == 41,
    ensures
        spec_sum(s, i, d) == Some((expand(e), i + spec_render(e).len() as int)),
    decreases e, 2int,
{
    let le = spec_render(e).len() as int;
    lemma_rt_unary(s, i, e, d);
    let j = i + le;
    assert(ws_len(s, j) == 0);
    assert(spec_product_tail(s, j, expand(e), d) == Some((expand(e), j)));
    assert(spec_product(s, i, d) == Some((expand(e), j)));
    assert(spec_sum_tail(s, j, expand(e), d) == Some((expand(e), j)));
    assert(spec_sum(s, i, d) == Some((expand(e), j)));
}

/// Round trip: rendering a tree whose leaves are decimal literals and whose
/// nesting fits the parser's bound, then re-parsing the text, yields exactly
/// the tree's expansion (the tree itself when no reciprocal occurs).
pub proof fn lemma_render_parse_round_trip(e: ExprModel<Seq<u8>>)
    requires
        leaves_wf(e),
        nesting(e) <= MAX_NESTING as nat,
    ensures
        spec_parse(spec_render(e)) == Some(expand(e)),
{
    let s = spec_render(e);
    assert(s.subrange(0, s.len() as int) =~= s);
    lemma_rt_sum(s, 0, e, MAX_NESTING as nat);
    assert(ws_len(s, s.len() as int) == 0);
}

/// A tree without reciprocals re-parses to itself.
pub proof fn lemma_expand_identity(e: ExprModel<Seq<u8>>)
    requires
        !has_reciprocal(e),
    ensures
        expand(e) == e,
    decreases e,
{
    match e {
        ExprModel::Number(_) => {},
        ExprModel::Negated(x) => {
            lemma_expand_identity(*x);
        },
        ExprModel::Reciprocal(_) => {},
        ExprModel::Add(l, r) => {
            lemma_expand_identity(*l);
            lemma_expand_identity(*r);
        },
        ExprModel::Multiply(l, r) => {
            lemma_expand_identity(*l);
            lemma_expand_identity(*r);
        },
    }
}

} // verus!
