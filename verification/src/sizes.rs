//! Which sizes an expression can have over given operators.
//!
//! `fillable` says it by a rule on the size. Here the rule is held
//! against the expressions themselves: every expression over the
//! operators has a size that the rule takes, and for every size that the
//! rule takes there is an expression over the operators.

use crate::gen::{enabled_op1, enabled_op2, fillable, lemma_enabled_op1, lemma_enabled_op2, valid_request};
use crate::program::{lemma_covers, lemma_size_positive, Expr, Id, OperatorSet, Program};
use crate::webapi::Problem;
use vstd::prelude::*;

verus! {

/// Whether the set has a unary operator.
pub open spec fn has_unary(ops: OperatorSet) -> bool {
    enabled_op1(ops).len() > 0
}

/// Whether the set has a binary operator.
pub open spec fn has_binary(ops: OperatorSet) -> bool {
    enabled_op2(ops).len() > 0
}

/// Whether an expression of the size `size` exists over `ops`, with a
/// fold where `fold` says so.
pub open spec fn fills(ops: OperatorSet, size: nat, fold: bool) -> bool {
    fillable(size, has_unary(ops), has_binary(ops), ops.if0, fold)
}

/// The operators of `ops` with the fold as `fold` says.
pub open spec fn with_fold(ops: OperatorSet, fold: bool) -> OperatorSet {
    OperatorSet { fold, ..ops }
}

/// The masks of a set do not depend on its fold.
proof fn lemma_with_fold(ops: OperatorSet, fold: bool, e: Expr)
    ensures
        with_fold(ops, fold).covers(e) == ops.covers(e),
        enabled_op1(with_fold(ops, fold)) == enabled_op1(ops),
        enabled_op2(with_fold(ops, fold)) == enabled_op2(ops),
{
    reveal(OperatorSet::covers);
    let other = with_fold(ops, fold);
    assert(forall|o: crate::program::UnaOp| other.has_op1(o) == ops.has_op1(o));
    assert(forall|o: crate::program::BinOp| other.has_op2(o) == ops.has_op2(o));
}

/// A unary operator over a size, where there is one, gives a size that
/// can be filled.
proof fn lemma_fill_op1(u: bool, b: bool, i: bool, f: bool, x: nat)
    requires
        u,
    ensures
        fillable(1 + x, u, b, i, f),
{
}

/// A binary operator over two sizes that can be filled gives one.
proof fn lemma_fill_op2(u: bool, b: bool, i: bool, f: bool, x: nat, y: nat)
    requires
        b,
        fillable(x, u, b, i, f),
        fillable(y, u, b, i, f),
    ensures
        fillable(1 + x + y, u, b, i, f),
{
}

/// An `if0` over three sizes that can be filled gives one.
proof fn lemma_fill_if0(u: bool, b: bool, i: bool, f: bool, x: nat, y: nat, z: nat)
    requires
        i,
        fillable(x, u, b, i, f),
        fillable(y, u, b, i, f),
        fillable(z, u, b, i, f),
    ensures
        fillable(1 + x + y + z, u, b, i, f),
{
}

/// A fold over three sizes that can be filled gives one.
proof fn lemma_fill_fold(u: bool, b: bool, i: bool, f: bool, x: nat, y: nat, z: nat)
    requires
        f,
        fillable(x, u, b, i, f),
        fillable(y, u, b, i, f),
        fillable(z, u, b, i, f),
    ensures
        fillable(2 + x + y + z, u, b, i, f),
{
}

/// Every expression over the operators has a size that can be filled.
pub proof fn law_sizes_are_fillable(ops: OperatorSet, e: Expr)
    requires
        ops.allows(e),
    ensures
        fills(ops, e.size(), ops.fold),
    decreases e,
{
    lemma_covers(ops, e);
    lemma_enabled_op1(ops);
    lemma_enabled_op2(ops);
    let u = has_unary(ops);
    let b = has_binary(ops);
    match e {
        Expr::If0(c, t, f) => {
            law_sizes_are_fillable(ops, *c);
            law_sizes_are_fillable(ops, *t);
            law_sizes_are_fillable(ops, *f);
            lemma_fill_if0(u, b, ops.if0, ops.fold, c.size(), t.size(), f.size());
        },
        Expr::Op1(op, a) => {
            assert(ops.has_op1(op));
            lemma_fill_op1(u, b, ops.if0, ops.fold, a.size());
        },
        Expr::Op2(op, l, r) => {
            assert(ops.has_op2(op));
            law_sizes_are_fillable(ops, *l);
            law_sizes_are_fillable(ops, *r);
            lemma_fill_op2(u, b, ops.if0, ops.fold, l.size(), r.size());
        },
        Expr::Fold { foldee, init, body, .. } => {
            law_sizes_are_fillable(ops, *foldee);
            law_sizes_are_fillable(ops, *init);
            law_sizes_are_fillable(ops, *body);
            lemma_fill_fold(u, b, ops.if0, ops.fold, foldee.size(), init.size(), body.size());
        },
        _ => {},
    }
}

/// An expression of the size `size` over `ops`, where there is one: a
/// chain of a unary operator; else binary operators, `if0` and folds over
/// zeros, each with one part that holds the rest.
pub open spec fn filling(ops: OperatorSet, size: nat, fold: bool) -> Expr
    decreases size,
{
    let zero = Box::new(Expr::Zero);
    if size <= 1 {
        Expr::Zero
    } else if has_unary(ops) {
        Expr::Op1(enabled_op1(ops)[0], Box::new(filling(ops, (size - 1) as nat, fold)))
    } else if has_binary(ops) {
        if ops.if0 && size == 4 {
            Expr::If0(zero, zero, zero)
        } else if size >= 3 {
            Expr::Op2(enabled_op2(ops)[0], zero, Box::new(filling(ops, (size - 2) as nat, fold)))
        } else {
            Expr::Zero
        }
    } else if ops.if0 && fold {
        if size == 5 {
            Expr::Fold { foldee: zero, init: zero, next_id: 0, accum_id: 0, body: zero }
        } else if size == 9 {
            Expr::Fold {
                foldee: zero,
                init: zero,
                next_id: 0,
                accum_id: 0,
                body: Box::new(filling(ops, 5, fold)),
            }
        } else if size >= 4 {
            Expr::If0(zero, zero, Box::new(filling(ops, (size - 3) as nat, fold)))
        } else {
            Expr::Zero
        }
    } else if ops.if0 {
        if size >= 4 {
            Expr::If0(zero, zero, Box::new(filling(ops, (size - 3) as nat, fold)))
        } else {
            Expr::Zero
        }
    } else if fold {
        if size >= 5 {
            Expr::Fold {
                foldee: zero,
                init: zero,
                next_id: 0,
                accum_id: 0,
                body: Box::new(filling(ops, (size - 4) as nat, fold)),
            }
        } else {
            Expr::Zero
        }
    } else {
        Expr::Zero
    }
}

/// For every size that can be filled there is an expression of that size
/// over the operators, in which nothing is unbound, and which has a fold
/// only where there may be one.
pub proof fn law_fillable_sizes_are_had(ops: OperatorSet, size: nat, fold: bool, bound: Set<Id>)
    requires
        fills(ops, size, fold),
    ensures
        filling(ops, size, fold).size() == size,
        ops.covers(filling(ops, size, fold)),
        filling(ops, size, fold).uses_fold() ==> fold,
        filling(ops, size, fold).closed(bound),
    decreases size,
{
    let e = filling(ops, size, fold);
    let zero = Expr::Zero;
    lemma_enabled_op1(ops);
    lemma_enabled_op2(ops);
    lemma_covers(ops, zero);
    lemma_covers(ops, e);
    assert(zero.size() == 1 && zero.closed(bound) && !zero.uses_fold());
    assert(zero.closed(bound.insert(0).insert(0)));
    if size <= 1 {
    } else if has_unary(ops) {
        law_fillable_sizes_are_had(ops, (size - 1) as nat, fold, bound);
    } else if has_binary(ops) {
        if ops.if0 && size == 4 {
        } else {
            law_fillable_sizes_are_had(ops, (size - 2) as nat, fold, bound);
        }
    } else if ops.if0 && fold {
        if size == 5 {
        } else if size == 9 {
            law_fillable_sizes_are_had(ops, 5, fold, bound.insert(0).insert(0));
        } else {
            law_fillable_sizes_are_had(ops, (size - 3) as nat, fold, bound);
        }
    } else if ops.if0 {
        law_fillable_sizes_are_had(ops, (size - 3) as nat, fold, bound);
    } else if fold {
        law_fillable_sizes_are_had(ops, (size - 4) as nat, fold, bound.insert(0).insert(0));
    }
}

/// Programs can be asked for a problem without a fixed form exactly where
/// a program of its size exists over its operators in which nothing is
/// unbound.
pub proof fn law_valid_request(problem: Problem)
    requires
        !problem.operators.tfold,
        !problem.operators.bonus,
    ensures
        valid_request(problem) <==> exists|p: Program|
            p.size() == problem.size && #[trigger] problem.operators.admits(p) && p.wf(),
{
    let ops = problem.operators;
    if valid_request(problem) {
        let n = (problem.size - 1) as nat;
        let e = filling(ops, n, ops.fold);
        law_fillable_sizes_are_had(ops, n, ops.fold, set![0usize]);
        let p = Program { id: 0, expr: Box::new(e) };
        assert(p.size() == problem.size && ops.admits(p) && p.wf());
    }
    if exists|p: Program| p.size() == problem.size && #[trigger] ops.admits(p) && p.wf() {
        let p = choose|p: Program| p.size() == problem.size && #[trigger] ops.admits(p) && p.wf();
        law_sizes_are_fillable(ops, *p.expr);
        lemma_size_positive(*p.expr);
    }
}

/// Programs can be asked for a problem with the fold fixed at the top
/// exactly where a program of its size and that form exists over its
/// operators in which nothing is unbound.
pub proof fn law_valid_tfold_request(problem: Problem)
    requires
        problem.operators.tfold,
    ensures
        valid_request(problem) <==> exists|p: Program|
            p.size() == problem.size && #[trigger] problem.operators.admits(p) && p.wf(),
{
    let ops = problem.operators;
    let plain = with_fold(ops, false);
    if valid_request(problem) {
        let n = (problem.size - 5) as nat;
        let body = filling(plain, n, false);
        lemma_with_fold(ops, false, body);
        law_fillable_sizes_are_had(plain, n, false, set![0usize].insert(0).insert(0));
        let expr = Expr::Fold {
            foldee: Box::new(Expr::Ident(0)),
            init: Box::new(Expr::Zero),
            next_id: 0,
            accum_id: 0,
            body: Box::new(body),
        };
        let p = Program { id: 0, expr: Box::new(expr) };
        assert(Expr::Ident(0).size() == 1 && Expr::Zero.size() == 1);
        assert(Expr::Ident(0).closed(set![0usize]) && Expr::Zero.closed(set![0usize]));
        assert(p.size() == problem.size && ops.admits(p) && p.wf());
    }
    if exists|p: Program| p.size() == problem.size && #[trigger] ops.admits(p) && p.wf() {
        let p = choose|p: Program| p.size() == problem.size && #[trigger] ops.admits(p) && p.wf();
        let body = *p.expr->body;
        lemma_with_fold(ops, false, body);
        law_sizes_are_fillable(plain, body);
        lemma_size_positive(body);
        assert(p.expr->foldee.size() == 1 && p.expr->init.size() == 1);
    }
}

} // verus!
