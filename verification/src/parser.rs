use vstd::prelude::*;
use crate::ast::{Expr, ExprModel};
use vstd::string::StringSliceAdditionalSpecFns;

verus! {

/// The deepest parenthesis nesting the parser accepts.  Inputs nested more
/// deeply are rejected with a reported error instead of risking exhaustion
/// of the host call stack.
pub const MAX_NESTING: usize = 200;

/// ASCII whitespace, ignored around tokens.  Only these bytes are skipped:
/// the input is read byte-wise, and a byte of a multi-byte character never
/// matches the token grammar, so non-ASCII whitespace is reported as an
/// error rather than ignored.
pub open spec fn is_space(b: u8) -> bool {
    b == 32 || (9 <= b && b <= 13)
}

/// ASCII decimal digit.
pub open spec fn is_digit(b: u8) -> bool {
    48 <= b && b <= 57
}

/// A non-empty run of decimal digits.
pub open spec fn all_digits(t: Seq<u8>) -> bool {
    t.len() > 0 && forall|k: int| 0 <= k < t.len() ==> is_digit(#[trigger] t[k])
}

/// The text of a decimal literal: digits, optionally followed by a dot and
/// more digits.  An integer part is required; a fractional part needs at
/// least one digit.
pub open spec fn is_literal(t: Seq<u8>) -> bool {
    all_digits(t) || (exists|k: int|
        0 < k < t.len() && #[trigger] t[k] == 46 && all_digits(t.subrange(0, k)) && all_digits(
            t.subrange(k + 1, t.len() as int),
        ))
}

/// Every leaf of a tree holds the text of a decimal literal.
pub open spec fn leaves_wf(e: ExprModel<Seq<u8>>) -> bool
    decreases e,
{
    match e {
        ExprModel::Number(t) => is_literal(t),
        ExprModel::Negated(x) => leaves_wf(*x),
        ExprModel::Reciprocal(x) => leaves_wf(*x),
        ExprModel::Add(l, r) => leaves_wf(*l) && leaves_wf(*r),
        ExprModel::Multiply(l, r) => leaves_wf(*l) && leaves_wf(*r),
    }
}

/// How many whitespace bytes follow position `i`.
pub open spec fn ws_len(s: Seq<u8>, i: int) -> nat
    decreases s.len() - i,
{
    if 0 <= i < s.len() && is_space(s[i]) {
        1 + ws_len(s, i + 1)
    } else {
        0
    }
}

/// The first position at or after `i` that does not hold whitespace.
pub open spec fn skip_ws(s: Seq<u8>, i: int) -> int {
    i + ws_len(s, i)
}

/// How many digit bytes follow position `i`.
pub open spec fn digits_len(s: Seq<u8>, i: int) -> nat
    decreases s.len() - i,
{
    if 0 <= i < s.len() && is_digit(s[i]) {
        1 + digits_len(s, i + 1)
    } else {
        0
    }
}

/// The decimal literal starting at position `i` (which must hold a digit):
/// its text and the position just after it.  A dot is taken into the literal
/// only when at least one digit follows it.
pub open spec fn spec_number(s: Seq<u8>, i: int) -> (Seq<u8>, int) {
    let j = i + digits_len(s, i);
    if j < s.len() && s[j] == 46 && j + 1 < s.len() && is_digit(s[j + 1]) {
        let k = j + 1 + digits_len(s, j + 1);
        (s.subrange(i, k), k)
    } else {
        (s.subrange(i, j), j)
    }
}

/// Grammar, one specification function per rule, all returning the parsed
/// tree and the position just after it, or `None` when the rule does not
/// match.  `d` bounds how many parenthesis levels may still be opened.
///
///   sum     := product (('+' | '-') product)*
///   product := unary (('*' | 'x' | '/') unary)*
///   unary   := atom | '-' atom
///   atom    := decimal | '(' sum ')'
///
/// `'-'` at the sum level folds to `Add(acc, Negated(next))`; `'/'` folds to
/// `Multiply(acc, Reciprocal(next))`; `'x'` is an alias for `'*'`.
pub open spec fn spec_atom(s: Seq<u8>, i: int, d: nat) -> Option<(ExprModel<Seq<u8>>, int)>
    decreases d, s.len() - i, 0int,
{
    let j = skip_ws(s, i);
    if j < s.len() && is_digit(s[j]) {
        let (lit, k) = spec_number(s, j);
        Some((ExprModel::Number(lit), k))
    } else if j < s.len() && s[j] == 40 {
        if d == 0 {
            None
        } else {
            match spec_sum(s, j + 1, (d - 1) as nat) {
                None => None,
                Some((e, k)) => {
                    let m = skip_ws(s, k);
                    if m < s.len() && s[m] == 41 {
                        Some((e, m + 1))
                    } else {
                        None
                    }
                },
            }
        }
    } else {
        None
    }
}

pub open spec fn spec_unary(s: Seq<u8>, i: int, d: nat) -> Option<(ExprModel<Seq<u8>>, int)>
    decreases d, s.len() - i, 1int,
{
    let j = skip_ws(s, i);
    if j < s.len() && s[j] == 45 {
        match spec_atom(s, j + 1, d) {
            None => None,
            Some((e, k)) => Some((ExprModel::Negated(Box::new(e)), k)),
        }
    } else {
        spec_atom(s, i, d)
    }
}

pub open spec fn spec_product_tail(
    s: Seq<u8>,
    i: int,
    acc: ExprModel<Seq<u8>>,
    d: nat,
) -> Option<(ExprModel<Seq<u8>>, int)>
    decreases d, s.len() - i, 2int,
{
    let j = skip_ws(s, i);
    if j < s.len() && (s[j] == 42 || s[j] == 120 || s[j] == 47) {
        match spec_unary(s, j + 1, d) {
            None => None,
            Some((r, k)) => {
                let acc2 = if s[j] == 47 {
                    ExprModel::Multiply(Box::new(acc), Box::new(ExprModel::Reciprocal(Box::new(r))))
                } else {
                    ExprModel::Multiply(Box::new(acc), Box::new(r))
                };
                if k <= j || s.len() < k {
                    None
                } else {
                    spec_product_tail(s, k, acc2, d)
                }
            },
        }
    } else {
        Some((acc, i))
    }
}

pub open spec fn spec_product(s: Seq<u8>, i: int, d: nat) -> Option<(ExprModel<Seq<u8>>, int)>
    decreases d, s.len() - i, 3int,
{
    match spec_unary(s, i, d) {
        None => None,
        Some((e, j)) => {
            if j < i || s.len() < j {
                None
            } else {
                spec_product_tail(s, j, e, d)
            }
        },
    }
}

pub open spec fn spec_sum_tail(
    s: Seq<u8>,
    i: int,
    acc: ExprModel<Seq<u8>>,
    d: nat,
) -> Option<(ExprModel<Seq<u8>>, int)>
    decreases d, s.len() - i, 4int,
{
    let j = skip_ws(s, i);
    if j < s.len() && (s[j] == 43 || s[j] == 45) {
        match spec_product(s, j + 1, d) {
            None => None,
            Some((r, k)) => {
                let acc2 = if s[j] == 45 {
                    ExprModel::Add(Box::new(acc), Box::new(ExprModel::Negated(Box::new(r))))
                } else {
                    ExprModel::Add(Box::new(acc), Box::new(r))
                };
                if k <= j || s.len() < k {
                    None
                } else {
                    spec_sum_tail(s, k, acc2, d)
                }
            },
        }
    } else {
        Some((acc, i))
    }
}

pub open spec fn spec_sum(s: Seq<u8>, i: int, d: nat) -> Option<(ExprModel<Seq<u8>>, int)>
    decreases d, s.len() - i, 5int,
{
    match spec_product(s, i, d) {
        None => None,
        Some((e, j)) => {
            if j < i || s.len() < j {
                None
            } else {
                spec_sum_tail(s, j, e, d)
            }
        },
    }
}

/// A whole input parses when the sum rule matches at the start, with `d`
/// parenthesis levels available, and only whitespace follows it.
pub open spec fn spec_parse_depth(s: Seq<u8>, d: nat) -> Option<ExprModel<Seq<u8>>> {
    match spec_sum(s, 0, d) {
        None => None,
        Some((e, j)) => {
            if skip_ws(s, j) == s.len() {
                Some(e)
            } else {
                None
            }
        },
    }
}

/// What the parser accepts and returns: the grammar above, with parenthesis
/// nesting bounded by `MAX_NESTING`.
pub open spec fn spec_parse(s: Seq<u8>) -> Option<ExprModel<Seq<u8>>> {
    spec_parse_depth(s, MAX_NESTING as nat)
}


proof fn lemma_ws_bound(s: Seq<u8>, i: int)
    requires
        0 <= i <= s.len(),
    ensures
        i <= skip_ws(s, i) <= s.len(),
    decreases s.len() - i,
{
    if i < s.len() && is_space(s[i]) {
        lemma_ws_bound(s, i + 1);
    }
}

proof fn lemma_digits_bound(s: Seq<u8>, i: int)
    requires
        0 <= i <= s.len(),
    ensures
        i <= i + digits_len(s, i) <= s.len(),
    decreases s.len() - i,
{
    if i < s.len() && is_digit(s[i]) {
        lemma_digits_bound(s, i + 1);
    }
}

/// Exec mirror of `is_space`.
fn is_space_x(b: u8) -> (r: bool)
    ensures
        r == is_space(b),
{
    b == 32 || (9 <= b && b <= 13)
}

/// Exec mirror of `is_digit`.
fn is_digit_x(b: u8) -> (r: bool)
    ensures
        r == is_digit(b),
{
    48 <= b && b <= 57
}

/// The position just after the whitespace run starting at `i`.
fn ws(s: &[u8], i: usize) -> (j: usize)
    requires
        i <= s@.len(),
    ensures
        j as int == skip_ws(s@, i as int),
        i <= j <= s@.len(),
{
    let mut j = i;
    while j < s.len() && is_space_x(s[j])
        invariant
            i <= j <= s@.len(),
            i + ws_len(s@, i as int) == j + ws_len(s@, j as int),
        decreases s@.len() - j,
    {
        j = j + 1;
    }
    j
}

/// The position just after the digit run starting at `i`.
fn digits_end(s: &[u8], i: usize) -> (j: usize)
    requires
        i <= s@.len(),
    ensures
        j as int == i + digits_len(s@, i as int),
        i <= j <= s@.len(),
{
    let mut j = i;
    while j < s.len() && is_digit_x(s[j])
        invariant
            i <= j <= s@.len(),
            i + digits_len(s@, i as int) == j + digits_len(s@, j as int),
        decreases s@.len() - j,
    {
        j = j + 1;
    }
    j
}


proof fn lemma_digits_run(s: Seq<u8>, i: int)
    requires
        0 <= i,
    ensures
        forall|q: int| i <= q < i + digits_len(s, i) ==> is_digit(#[trigger] s[q]),
    decreases s.len() - i,
{
    if i < s.len() && is_digit(s[i]) {
        lemma_digits_run(s, i + 1);
    }
}

proof fn lemma_number_literal(s: Seq<u8>, j: int)
    requires
        0 <= j < s.len(),
        is_digit(s[j]),
    ensures
        is_literal(spec_number(s, j).0),
        j < spec_number(s, j).1 <= s.len(),
{
    lemma_digits_bound(s, j);
    lemma_digits_run(s, j);
    let dl1 = digits_len(s, j) as int;
    let j2 = j + dl1;
    assert(dl1 >= 1);
    if j2 < s.len() && s[j2] == 46 && j2 + 1 < s.len() && is_digit(s[j2 + 1]) {
        lemma_digits_bound(s, j2 + 1);
        lemma_digits_run(s, j2 + 1);
        let dl2 = digits_len(s, j2 + 1) as int;
        assert(dl2 >= 1);
        let k = j2 + 1 + dl2;
        let t = s.subrange(j, k);
        let k0 = dl1;
        assert(t[k0] == s[j2]);
        assert(all_digits(t.subrange(0, k0))) by {
            assert forall|q: int| 0 <= q < k0 implies is_digit(#[trigger] (t.subrange(0, k0)[q])) by {
                assert(t.subrange(0, k0)[q] == s[j + q]);
            }
        }
        assert(all_digits(t.subrange(k0 + 1, t.len() as int))) by {
            assert forall|q: int| 0 <= q < dl2 implies is_digit(
                #[trigger] (t.subrange(k0 + 1, t.len() as int)[q]),
            ) by {
                assert(t.subrange(k0 + 1, t.len() as int)[q] == s[j2 + 1 + q]);
            }
        }
        assert(is_literal(t));
    } else {
        let t = s.subrange(j, j2);
        assert(all_digits(t)) by {
            assert forall|q: int| 0 <= q < t.len() implies is_digit(#[trigger] t[q]) by {
                assert(t[q] == s[j + q]);
            }
        }
    }
}

proof fn lemma_atom_advance(s: Seq<u8>, i: int, d: nat)
    requires
        0 <= i <= s.len(),
    ensures
        spec_atom(s, i, d) matches Some(r) ==> i < r.1 <= s.len() && leaves_wf(r.0),
    decreases d, s.len() - i, 0int,
{
    lemma_ws_bound(s, i);
    let j = skip_ws(s, i);
    if j < s.len() && is_digit(s[j]) {
        lemma_number_literal(s, j);
    } else if j < s.len() && s[j] == 40 && d > 0 {
        lemma_sum_advance(s, j + 1, (d - 1) as nat);
        match spec_sum(s, j + 1, (d - 1) as nat) {
            Some(r) => lemma_ws_bound(s, r.1),
            None => (),
        }
    }
}

proof fn lemma_unary_advance(s: Seq<u8>, i: int, d: nat)
    requires
        0 <= i <= s.len(),
    ensures
        spec_unary(s, i, d) matches Some(r) ==> i < r.1 <= s.len() && leaves_wf(r.0),
    decreases d, s.len() - i, 1int,
{
    lemma_ws_bound(s, i);
    let j = skip_ws(s, i);
    if j < s.len() && s[j] == 45 {
        lemma_atom_advance(s, j + 1, d);
    } else {
        lemma_atom_advance(s, i, d);
    }
}

proof fn lemma_product_tail_advance(s: Seq<u8>, i: int, acc: ExprModel<Seq<u8>>, d: nat)
    requires
        0 <= i <= s.len(),
        leaves_wf(acc),
    ensures
        spec_product_tail(s, i, acc, d) matches Some(r) ==> i <= r.1 <= s.len() && leaves_wf(r.0),
    decreases d, s.len() - i, 2int,
{
    lemma_ws_bound(s, i);
    let j = skip_ws(s, i);
    if j < s.len() && (s[j] == 42 || s[j] == 120 || s[j] == 47) {
        lemma_unary_advance(s, j + 1, d);
        match spec_unary(s, j + 1, d) {
            Some(r) => {
                if j < r.1 && r.1 <= s.len() {
                    let acc2 = if s[j] == 47 {
                        ExprModel::Multiply(
                            Box::new(acc),
                            Box::new(ExprModel::Reciprocal(Box::new(r.0))),
                        )
                    } else {
                        ExprModel::Multiply(Box::new(acc), Box::new(r.0))
                    };
                    assert(leaves_wf(ExprModel::Reciprocal(Box::new(r.0))));
                    assert(leaves_wf(acc2));
                    lemma_product_tail_advance(s, r.1, acc2, d);
                }
            },
            None => (),
        }
    }
}

proof fn lemma_product_advance(s: Seq<u8>, i: int, d: nat)
    requires
        0 <= i <= s.len(),
    ensures
        spec_product(s, i, d) matches Some(r) ==> i < r.1 <= s.len() && leaves_wf(r.0),
    decreases d, s.len() - i, 3int,
{
    lemma_unary_advance(s, i, d);
    match spec_unary(s, i, d) {
        Some(r) => lemma_product_tail_advance(s, r.1, r.0, d),
        None => (),
    }
}

proof fn lemma_sum_tail_advance(s: Seq<u8>, i: int, acc: ExprModel<Seq<u8>>, d: nat)
    requires
        0 <= i <= s.len(),
        leaves_wf(acc),
    ensures
        spec_sum_tail(s, i, acc, d) matches Some(r) ==> i <= r.1 <= s.len() && leaves_wf(r.0),
    decreases d, s.len() - i, 4int,
{
    lemma_ws_bound(s, i);
    let j = skip_ws(s, i);
    if j < s.len() && (s[j] == 43 || s[j] == 45) {
        lemma_product_advance(s, j + 1, d);
        match spec_product(s, j + 1, d) {
            Some(r) => {
                if j < r.1 && r.1 <= s.len() {
                    let acc2 = if s[j] == 45 {
                        ExprModel::Add(Box::new(acc), Box::new(ExprModel::Negated(Box::new(r.0))))
                    } else {
                        ExprModel::Add(Box::new(acc), Box::new(r.0))
                    };
                    assert(leaves_wf(ExprModel::Negated(Box::new(r.0))));
                    assert(leaves_wf(acc2));
                    lemma_sum_tail_advance(s, r.1, acc2, d);
                }
            },
            None => (),
        }
    }
}

proof fn lemma_sum_advance(s: Seq<u8>, i: int, d: nat)
    requires
        0 <= i <= s.len(),
    ensures
        spec_sum(s, i, d) matches Some(r) ==> i < r.1 <= s.len() && leaves_wf(r.0),
    decreases d, s.len() - i, 5int,
{
    lemma_product_advance(s, i, d);
    match spec_product(s, i, d) {
        Some(r) => lemma_sum_tail_advance(s, r.1, r.0, d),
        None => (),
    }
}

proof fn lemma_skip_ws_fixed(s: Seq<u8>, i: int)
    ensures
        ws_len(s, skip_ws(s, i)) == 0,
    decreases s.len() - i,
{
    if 0 <= i < s.len() && is_space(s[i]) {
        lemma_skip_ws_fixed(s, i + 1);
        assert(skip_ws(s, i) == skip_ws(s, i + 1));
    }
}

proof fn lemma_atom_ws(s: Seq<u8>, i: int, d: nat)
    ensures
        spec_atom(s, i, d) == spec_atom(s, skip_ws(s, i), d),
{
    lemma_skip_ws_fixed(s, i);
    assert(skip_ws(s, skip_ws(s, i)) == skip_ws(s, i));
}

proof fn lemma_unary_ws(s: Seq<u8>, i: int, d: nat)
    ensures
        spec_unary(s, i, d) == spec_unary(s, skip_ws(s, i), d),
{
    lemma_skip_ws_fixed(s, i);
    assert(skip_ws(s, skip_ws(s, i)) == skip_ws(s, i));
    lemma_atom_ws(s, i, d);
}

proof fn lemma_product_ws(s: Seq<u8>, i: int, d: nat)
    requires
        0 <= i <= s.len(),
    ensures
        spec_product(s, i, d) == spec_product(s, skip_ws(s, i), d),
{
    lemma_ws_bound(s, i);
    let j0 = skip_ws(s, i);
    lemma_unary_ws(s, i, d);
    lemma_unary_advance(s, j0, d);
}

/// Whitespace insensitivity: parsing a sum at `i` is parsing it at the
/// first non-whitespace position after `i`.  Every other token read of the
/// grammar functions goes through `skip_ws` by definition, so whitespace
/// around atoms and unary terms never changes what an input parses to.
pub proof fn lemma_whitespace_before_term_ignored(s: Seq<u8>, i: int, d: nat)
    requires
        0 <= i <= s.len(),
    ensures
        spec_sum(s, i, d) == spec_sum(s, skip_ws(s, i), d),
{
    lemma_ws_bound(s, i);
    let j0 = skip_ws(s, i);
    lemma_product_ws(s, i, d);
    lemma_product_advance(s, j0, d);
}

/// Why a parse failed.
#[derive(Debug, PartialEq, Eq, Structural, Clone, Copy)]
pub enum ParseErrorKind {
    /// A number, `'-'` or `'('` was expected.
    ExpectedOperand,
    /// A closing `')'` was expected.
    ExpectedClosing,
    /// Parentheses nested more deeply than `MAX_NESTING`.
    TooDeep,
    /// Input remained after a complete expression.
    TrailingInput,
}

/// A parse diagnostic: the byte span of the offending input and the reason.
#[derive(Debug, PartialEq, Eq, Structural, Clone, Copy)]
pub struct ParseError {
    pub start: usize,
    pub end: usize,
    pub kind: ParseErrorKind,
}

impl ParseError {
    /// The span lies within an input of `n` bytes.
    pub open spec fn wf(&self, n: int) -> bool {
        self.start <= self.end <= n
    }

    /// A human-readable reason.
    pub fn message(&self) -> (r: String)
        ensures
            self.kind == ParseErrorKind::ExpectedOperand ==> r@ == "expected a number, '-' or '('"@,
            self.kind == ParseErrorKind::ExpectedClosing ==> r@ == "expected ')'"@,
            self.kind == ParseErrorKind::TooDeep ==> r@ == "expression is nested too deeply"@,
            self.kind == ParseErrorKind::TrailingInput ==> r@
                == "unexpected input after the expression"@,
    {
        match self.kind {
            ParseErrorKind::ExpectedOperand => "expected a number, '-' or '('".to_owned(),
            ParseErrorKind::ExpectedClosing => "expected ')'".to_owned(),
            ParseErrorKind::TooDeep => "expression is nested too deeply".to_owned(),
            ParseErrorKind::TrailingInput => "unexpected input after the expression".to_owned(),
        }
    }
}

/// The decimal literal starting at `i`, which must hold a digit.
fn p_number(s: &[u8], i: usize) -> (r: (Vec<u8>, usize))
    requires
        i < s@.len(),
        is_digit(s@[i as int]),
    ensures
        r.0@ == spec_number(s@, i as int).0,
        r.1 as int == spec_number(s@, i as int).1,
        i < r.1 <= s@.len(),
{
    let j = digits_end(s, i);
    assert(digits_len(s@, i as int) >= 1);
    if j < s.len() && s[j] == 46 && j + 1 < s.len() && is_digit_x(s[j + 1]) {
        let k = digits_end(s, j + 1);
        (vstd::slice::slice_to_vec(vstd::slice::slice_subrange(s, i, k)), k)
    } else {
        (vstd::slice::slice_to_vec(vstd::slice::slice_subrange(s, i, j)), j)
    }
}

fn p_atom(s: &[u8], i: usize, d: usize) -> (r: Result<(Expr<Vec<u8>>, usize), ParseError>)
    requires
        i <= s@.len(),
    ensures
        r matches Ok(t) ==> spec_atom(s@, i as int, d as nat) == Some((t.0@, t.1 as int)) && i
            < t.1 <= s@.len(),
        r is Err ==> spec_atom(s@, i as int, d as nat) is None,
        r matches Err(pe) ==> pe.wf(s@.len() as int),
    decreases d, s@.len() - i, 0int,
{
    let j = ws(s, i);
    if j < s.len() && is_digit_x(s[j]) {
        let (lit, k) = p_number(s, j);
        Ok((Expr::Number(lit), k))
    } else if j < s.len() && s[j] == 40 {
        if d == 0 {
            Err(ParseError { start: j, end: j + 1, kind: ParseErrorKind::TooDeep })
        } else {
            match p_sum(s, j + 1, d - 1) {
                Err(e) => Err(e),
                Ok((e, k)) => {
                    let m = ws(s, k);
                    if m < s.len() && s[m] == 41 {
                        Ok((e, m + 1))
                    } else {
                        let end = if m < s.len() {
                            m + 1
                        } else {
                            m
                        };
                        Err(ParseError { start: m, end, kind: ParseErrorKind::ExpectedClosing })
                    }
                },
            }
        }
    } else {
        let end = if j < s.len() {
            j + 1
        } else {
            j
        };
        Err(ParseError { start: j, end, kind: ParseErrorKind::ExpectedOperand })
    }
}

fn p_unary(s: &[u8], i: usize, d: usize) -> (r: Result<(Expr<Vec<u8>>, usize), ParseError>)
    requires
        i <= s@.len(),
    ensures
        r matches Ok(t) ==> spec_unary(s@, i as int, d as nat) == Some((t.0@, t.1 as int)) && i
            < t.1 <= s@.len(),
        r is Err ==> spec_unary(s@, i as int, d as nat) is None,
        r matches Err(pe) ==> pe.wf(s@.len() as int),
    decreases d, s@.len() - i, 1int,
{
    let j = ws(s, i);
    if j < s.len() && s[j] == 45 {
        match p_atom(s, j + 1, d) {
            Ok((e, k)) => Ok((Expr::Negated(Box::new(e)), k)),
            Err(e) => Err(e),
        }
    } else {
        p_atom(s, i, d)
    }
}

fn p_product(s: &[u8], i: usize, d: usize) -> (r: Result<(Expr<Vec<u8>>, usize), ParseError>)
    requires
        i <= s@.len(),
    ensures
        r matches Ok(t) ==> spec_product(s@, i as int, d as nat) == Some((t.0@, t.1 as int)) && i
            < t.1 <= s@.len(),
        r is Err ==> spec_product(s@, i as int, d as nat) is None,
        r matches Err(pe) ==> pe.wf(s@.len() as int),
    decreases d, s@.len() - i, 3int,
{
    let (first, first_end) = match p_unary(s, i, d) {
        Ok(t) => t,
        Err(e) => {
            return Err(e);
        },
    };
    let mut acc = first;
    let mut cur = first_end;
    loop
        invariant
            i < cur <= s@.len(),
            spec_product(s@, i as int, d as nat) == spec_product_tail(
                s@,
                cur as int,
                acc@,
                d as nat,
            ),
        decreases s@.len() - cur,
    {
        let j = ws(s, cur);
        if j < s.len() && (s[j] == 42 || s[j] == 120 || s[j] == 47) {
            let is_div = s[j] == 47;
            match p_unary(s, j + 1, d) {
                Err(e) => {
                    return Err(e);
                },
                Ok((r, k)) => {
                    let ghost old_acc = acc@;
                    let ghost cur0 = cur as int;
                    let ghost rv = r@;
                    let operand = if is_div {
                        Expr::Reciprocal(Box::new(r))
                    } else {
                        r
                    };
                    proof {
                        assert(operand@ == if is_div {
                            ExprModel::Reciprocal(Box::new(rv))
                        } else {
                            rv
                        });
                    }
                    let ghost ov = operand@;
                    acc = Expr::Multiply(Box::new(acc), Box::new(operand));
                    proof {
                        assert(acc@ == ExprModel::Multiply(Box::new(old_acc), Box::new(ov)));
                        assert(spec_product_tail(s@, cur0, old_acc, d as nat)
                            == spec_product_tail(s@, k as int, acc@, d as nat));
                    }
                    cur = k;
                },
            }
        } else {
            return Ok((acc, cur));
        }
    }
}

fn p_sum(s: &[u8], i: usize, d: usize) -> (r: Result<(Expr<Vec<u8>>, usize), ParseError>)
    requires
        i <= s@.len(),
    ensures
        r matches Ok(t) ==> spec_sum(s@, i as int, d as nat) == Some((t.0@, t.1 as int)) && i < t.1
            <= s@.len(),
        r is Err ==> spec_sum(s@, i as int, d as nat) is None,
        r matches Err(pe) ==> pe.wf(s@.len() as int),
    decreases d, s@.len() - i, 5int,
{
    let (first, first_end) = match p_product(s, i, d) {
        Ok(t) => t,
        Err(e) => {
            return Err(e);
        },
    };
    let mut acc = first;
    let mut cur = first_end;
    loop
        invariant
            i < cur <= s@.len(),
            spec_sum(s@, i as int, d as nat) == spec_sum_tail(s@, cur as int, acc@, d as nat),
        decreases s@.len() - cur,
    {
        let j = ws(s, cur);
        if j < s.len() && (s[j] == 43 || s[j] == 45) {
            let is_sub = s[j] == 45;
            match p_product(s, j + 1, d) {
                Err(e) => {
                    return Err(e);
                },
                Ok((r, k)) => {
                    let ghost old_acc = acc@;
                    let ghost cur0 = cur as int;
                    let ghost rv = r@;
                    let operand = if is_sub {
                        Expr::Negated(Box::new(r))
                    } else {
                        r
                    };
                    proof {
                        assert(operand@ == if is_sub {
                            ExprModel::Negated(Box::new(rv))
                        } else {
                            rv
                        });
                    }
                    let ghost ov = operand@;
                    acc = Expr::Add(Box::new(acc), Box::new(operand));
                    proof {
                        assert(acc@ == ExprModel::Add(Box::new(old_acc), Box::new(ov)));
                        assert(spec_sum_tail(s@, cur0, old_acc, d as nat)
                            == spec_sum_tail(s@, k as int, acc@, d as nat));
                    }
                    cur = k;
                },
            }
        } else {
            return Ok((acc, cur));
        }
    }
}

/// Parse a whole byte string.  On success the tree is returned and the error
/// list is empty; on failure there is no tree and at least one error, whose
/// span lies within the input.  Success is exactly `spec_parse` matching.
pub fn parse_bytes(s: &[u8]) -> (r: (Option<Expr<Vec<u8>>>, Vec<ParseError>))
    ensures
        r.0 matches Some(e) ==> spec_parse(s@) == Some(e@) && r.1@.len() == 0 && leaves_wf(e@),
        r.0 is None ==> spec_parse(s@) is None && r.1@.len() >= 1,
        forall|q: int| 0 <= q < r.1@.len() ==> (#[trigger] r.1@[q]).wf(s@.len() as int),
{
    match p_sum(s, 0, MAX_NESTING) {
        Ok((e, j)) => {
            let m = ws(s, j);
            if m == s.len() {
                proof {
                    lemma_sum_advance(s@, 0, MAX_NESTING as nat);
                }
                (Some(e), Vec::new())
            } else {
                let pe = ParseError {
                    start: m,
                    end: s.len(),
                    kind: ParseErrorKind::TrailingInput,
                };
                let mut v: Vec<ParseError> = Vec::new();
                v.push(pe);
                (None, v)
            }
        },
        Err(pe) => {
            let mut v: Vec<ParseError> = Vec::new();
            v.push(pe);
            (None, v)
        },
    }
}

/// Parse a textual expression into its tree, collecting diagnostics.
/// Whitespace around tokens is ignored (ASCII whitespace only; see
/// `is_space`), and spans count bytes of the input.
pub fn parse(input: &str) -> (r: (Option<Expr<Vec<u8>>>, Vec<ParseError>))
    ensures
        r.0 matches Some(e) ==> spec_parse(input.spec_bytes()) == Some(e@) && r.1@.len() == 0
            && leaves_wf(e@),
        r.0 is None ==> spec_parse(input.spec_bytes()) is None && r.1@.len() >= 1,
        forall|q: int| 0 <= q < r.1@.len() ==> (#[trigger] r.1@[q]).wf(
            input.spec_bytes().len() as int,
        ),
{
    parse_bytes(input.as_bytes())
}

} // verus!
