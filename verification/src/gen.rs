//! Random BV programs of an exact size over a given operator set.

use crate::program::{lemma_covers, lemma_covers_with_if0, BinOp, Expr, Id, OperatorSet, Program, UnaOp};
use crate::rng::XorShiftRng;
use crate::webapi::Problem;
use vstd::prelude::*;

verus! {

/// The largest size that a program can be asked to have.
pub const MAX_SIZE: usize = 255;

/// How often a split of a size among the children is drawn before the
/// generator gives the candidate up.
pub const SPLIT_ATTEMPTS: usize = 64;

/// `v` alone where `b` holds, else nothing.
pub open spec fn pick<T>(b: bool, v: T) -> Seq<T> {
    if b {
        seq![v]
    } else {
        Seq::empty()
    }
}

/// The unary operators of `ops`, in their fixed order.
pub open spec fn enabled_op1(ops: OperatorSet) -> Seq<UnaOp> {
    pick(ops.has_op1(UnaOp::Not), UnaOp::Not) + pick(ops.has_op1(UnaOp::Shl1), UnaOp::Shl1) + pick(
        ops.has_op1(UnaOp::Shr1),
        UnaOp::Shr1,
    ) + pick(ops.has_op1(UnaOp::Shr4), UnaOp::Shr4) + pick(
        ops.has_op1(UnaOp::Shr16),
        UnaOp::Shr16,
    )
}

/// The binary operators of `ops`, in their fixed order.
pub open spec fn enabled_op2(ops: OperatorSet) -> Seq<BinOp> {
    pick(ops.has_op2(BinOp::And), BinOp::And) + pick(ops.has_op2(BinOp::Or), BinOp::Or) + pick(
        ops.has_op2(BinOp::Xor),
        BinOp::Xor,
    ) + pick(ops.has_op2(BinOp::Plus), BinOp::Plus)
}

/// Every operator of `enabled_op1` is one of `ops`, and there are at most five.
#[verifier::rlimit(50)]
#[verifier::spinoff_prover]
pub proof fn lemma_enabled_op1(ops: OperatorSet)
    ensures
        enabled_op1(ops).len() <= 5,
        forall|i: int|
            0 <= i < enabled_op1(ops).len() ==> ops.has_op1(#[trigger] enabled_op1(ops)[i]),
        (enabled_op1(ops).len() == 0) == (forall|op: UnaOp| !ops.has_op1(op)),
{
    let s = enabled_op1(ops);
    assert forall|i: int| 0 <= i < s.len() implies ops.has_op1(#[trigger] s[i]) by {}
    if s.len() == 0 {
        assert forall|op: UnaOp| !ops.has_op1(op) by {
            match op {
                UnaOp::Not => {},
                UnaOp::Shl1 => {},
                UnaOp::Shr1 => {},
                UnaOp::Shr4 => {},
                UnaOp::Shr16 => {},
            }
        }
    } else {
        assert(ops.has_op1(s[0]));
    }
}

/// Every operator of `enabled_op2` is one of `ops`, and there are at most four.
#[verifier::rlimit(50)]
#[verifier::spinoff_prover]
pub proof fn lemma_enabled_op2(ops: OperatorSet)
    ensures
        enabled_op2(ops).len() <= 4,
        forall|i: int|
            0 <= i < enabled_op2(ops).len() ==> ops.has_op2(#[trigger] enabled_op2(ops)[i]),
        (enabled_op2(ops).len() == 0) == (forall|op: BinOp| !ops.has_op2(op)),
{
    let s = enabled_op2(ops);
    assert forall|i: int| 0 <= i < s.len() implies ops.has_op2(#[trigger] s[i]) by {}
    if s.len() == 0 {
        assert forall|op: BinOp| !ops.has_op2(op) by {
            match op {
                BinOp::And => {},
                BinOp::Or => {},
                BinOp::Xor => {},
                BinOp::Plus => {},
            }
        }
    } else {
        assert(ops.has_op2(s[0]));
    }
}

/// Whether the slot sampler moves away from the size `choice`.
///
/// With a unary operator every size can be filled. Without one, a size of 2
/// cannot. Without `if0` and fold as well, no even size can. With one of
/// them, 6 is avoided, and where a fold may still come, 4.
pub open spec fn size_blocked(
    choice: nat,
    have_unaops: bool,
    have_fold_or_if0: bool,
    foldable: bool,
) -> bool {
    if have_unaops {
        false
    } else if !have_fold_or_if0 {
        choice % 2 == 0
    } else {
        choice == 6 || choice == 2 || (foldable && choice == 4)
    }
}

/// Whether a slot that is left over may have the size `choice`.
pub open spec fn size_fits(choice: nat, have_unaops: bool, have_fold_or_if0: bool) -> bool {
    if have_unaops {
        true
    } else if !have_fold_or_if0 && choice % 2 == 0 {
        false
    } else {
        choice != 6 && choice != 2
    }
}

/// The size that the sampler takes in place of a blocked `choice`: one
/// more where there is room and the coin says so, else one less.
pub open spec fn nudged(choice: nat, space: nat, up: bool) -> nat {
    if space > choice && up {
        choice + 1
    } else {
        (choice - 1) as nat
    }
}

/// Whether the slot sampler moves away from the size `choice`.
pub fn is_blocked(choice: usize, have_unaops: bool, have_fold_or_if0: bool, foldable: bool) -> (b:
    bool)
    ensures
        b == size_blocked(choice as nat, have_unaops, have_fold_or_if0, foldable),
{
    if have_unaops {
        false
    } else if !have_fold_or_if0 {
        choice % 2 == 0
    } else {
        choice == 6 || choice == 2 || (foldable && choice == 4)
    }
}

/// The size that the sampler takes in place of a blocked `choice`.
pub fn nudge(choice: usize, space: usize, up: bool) -> (size: usize)
    requires
        1 <= choice <= space,
    ensures
        size == nudged(choice as nat, space as nat, up),
{
    if space > choice && up {
        choice + 1
    } else {
        choice - 1
    }
}

/// Whether an expression of the size `size` exists over unary operators,
/// binary operators, `if0` and fold, as far as each is there.
///
/// With a unary operator every size can be had. Without one: an atom has
/// size 1; binary operators alone, or with fold, give the odd sizes; with
/// `if0` they give every size but 2; `if0` alone gives the sizes that leave
/// 1 when divided by 3, fold alone those that leave 1 when divided by 4;
/// `if0` and fold together give every size but 2, 3 and 6.
pub open spec fn fillable(size: nat, unary: bool, binary: bool, if0: bool, fold: bool) -> bool {
    &&& size >= 1
    &&& {
        ||| unary
        ||| size == 1
        ||| binary && if0 && size != 2
        ||| binary && !if0 && size % 2 == 1
        ||| !binary && if0 && fold && size != 2 && size != 3 && size != 6
        ||| !binary && if0 && !fold && size % 3 == 1
        ||| !binary && !if0 && fold && size % 4 == 1
    }
}

/// Whether an expression of the size `size` exists over the operators given.
pub fn is_fillable(size: usize, unary: bool, binary: bool, if0: bool, fold: bool) -> (ok: bool)
    ensures
        ok == fillable(size as nat, unary, binary, if0, fold),
{
    size >= 1 && (unary || size == 1 || (binary && if0 && size != 2) || (binary && !if0 && size % 2
        == 1) || (!binary && if0 && fold && size != 2 && size != 3 && size != 6) || (!binary && if0
        && !fold && size % 3 == 1) || (!binary && !if0 && fold && size % 4 == 1))
}

/// Whether programs can be asked for `problem`: a program of its size
/// exists over its operators, in the form that they fix. With `tfold`
/// that is a fold over a body of the size less 5 without a fold; with
/// `bonus` an `if0` over `and`, which takes `if0`, `and`, a unary operator
/// and a size of 13; else any expression of the size less 1.
pub open spec fn valid_request(problem: Problem) -> bool {
    let ops = problem.operators;
    let unary = enabled_op1(ops).len() > 0;
    let binary = enabled_op2(ops).len() > 0;
    if ops.tfold {
        problem.size >= 6 && fillable((problem.size - 5) as nat, unary, binary, ops.if0, false)
    } else if ops.bonus {
        problem.size >= 13 && ops.if0 && ops.has_op2(BinOp::And) && unary
    } else {
        problem.size >= 2 && fillable((problem.size - 1) as nat, unary, binary, ops.if0, ops.fold)
    }
}

/// Whether programs can be asked for `problem`.
pub fn check_request(problem: &Problem) -> (ok: bool)
    ensures
        ok == valid_request(*problem),
{
    let ops = &problem.operators;
    proof {
        lemma_enabled_op1(*ops);
        lemma_enabled_op2(*ops);
    }
    let unary = UnaOp::Not.in_ops(ops) || UnaOp::Shl1.in_ops(ops) || UnaOp::Shr1.in_ops(ops)
        || UnaOp::Shr4.in_ops(ops) || UnaOp::Shr16.in_ops(ops);
    let binary = BinOp::And.in_ops(ops) || BinOp::Or.in_ops(ops) || BinOp::Xor.in_ops(ops)
        || BinOp::Plus.in_ops(ops);
    proof {
        if !unary {
            assert forall|op: UnaOp| !ops.has_op1(op) by {
                match op {
                    UnaOp::Not => {},
                    UnaOp::Shl1 => {},
                    UnaOp::Shr1 => {},
                    UnaOp::Shr4 => {},
                    UnaOp::Shr16 => {},
                }
            }
        }
        if !binary {
            assert forall|op: BinOp| !ops.has_op2(op) by {
                match op {
                    BinOp::And => {},
                    BinOp::Or => {},
                    BinOp::Xor => {},
                    BinOp::Plus => {},
                }
            }
        }
    }
    let size = problem.size as usize;
    if ops.tfold {
        size >= 6 && is_fillable(size - 5, unary, binary, ops.if0, false)
    } else if ops.bonus {
        size >= 13 && ops.if0 && BinOp::And.in_ops(ops) && unary
    } else {
        size >= 2 && is_fillable(size - 1, unary, binary, ops.if0, ops.fold)
    }
}

/// How many of the equally likely draws lead to each form of expression.
#[derive(Clone, Copy, Debug, PartialEq, Eq)]
pub struct Weights {
    pub op1: usize,
    pub op2: usize,
    pub if0: usize,
    pub fold: usize,
}

/// The weights of the forms for an expression of the size `size`, at least 2.
///
/// A unary operator counts once for each operator. From size 5 on, a binary
/// operator counts `size - 2` times for each operator, and `if0` and fold
/// each `(size - 1) * (size - 2) / 2` times. A form is left out where its
/// children could not be filled.
pub open spec fn form_weights(
    size: nat,
    op1_len: nat,
    op2_len: nat,
    if0: bool,
    foldable: bool,
) -> (nat, nat, nat, nat) {
    let have_unaops = op1_len > 0;
    if size <= 2 {
        (op1_len, 0, 0, 0)
    } else if size == 3 {
        (op1_len, op2_len, 0, 0)
    } else if size == 4 {
        (
            op1_len,
            if have_unaops {
                op2_len
            } else {
                0
            },
            if if0 {
                1
            } else {
                0
            },
            0,
        )
    } else {
        let spaces = (size - 1) as nat;
        let triples = spaces * (spaces - 1) / 2;
        let gen_binop = have_unaops || size % 2 == 1 || if0;
        let gen_if = if0 && (have_unaops || size > 6);
        let gen_fold = foldable && (have_unaops || (if0 && (size == 8 || size == 10)) || (size != 5
            && size != 6 && size != 8 && size != 10));
        (
            op1_len,
            if gen_binop {
                (op2_len * (spaces - 1)) as nat
            } else {
                0
            },
            if gen_if {
                triples as nat
            } else {
                0
            },
            if gen_fold {
                triples as nat
            } else {
                0
            },
        )
    }
}

/// Whether the identifiers of `e` are those that the generator hands out:
/// below `idents` outside a fold, which binds 1 and 2 and gives its body two
/// identifiers more.
pub open spec fn scoped(e: Expr, idents: nat) -> bool
    decreases e,
{
    match e {
        Expr::Zero => true,
        Expr::One => true,
        Expr::Ident(id) => id < idents,
        Expr::If0(c, t, f) => scoped(*c, idents) && scoped(*t, idents) && scoped(*f, idents),
        Expr::Op1(_, a) => scoped(*a, idents),
        Expr::Op2(_, l, r) => scoped(*l, idents) && scoped(*r, idents),
        Expr::Fold { foldee, init, next_id, accum_id, body } => {
            &&& next_id == 1
            &&& accum_id == 2
            &&& scoped(*foldee, idents)
            &&& scoped(*init, idents)
            &&& scoped(*body, idents + 2)
        },
    }
}

/// An expression without folds whose identifiers are below `idents` is
/// closed under any set that holds those.
proof fn lemma_scoped_closed(e: Expr, idents: nat, bound: Set<Id>)
    requires
        scoped(e, idents),
        !e.uses_fold(),
        forall|i: Id| i < idents ==> bound.contains(i),
    ensures
        e.closed(bound),
    decreases e,
{
    match e {
        Expr::If0(c, t, f) => {
            lemma_scoped_closed(*c, idents, bound);
            lemma_scoped_closed(*t, idents, bound);
            lemma_scoped_closed(*f, idents, bound);
        },
        Expr::Op1(_, a) => {
            lemma_scoped_closed(*a, idents, bound);
        },
        Expr::Op2(_, l, r) => {
            lemma_scoped_closed(*l, idents, bound);
            lemma_scoped_closed(*r, idents, bound);
        },
        _ => {},
    }
}

/// An expression of the generator over the argument alone, with no fold
/// inside a fold, is closed under the argument.
proof fn lemma_scoped_closed_top(e: Expr)
    requires
        scoped(e, 1),
        e.folds_flat(),
    ensures
        e.closed(set![0usize]),
    decreases e,
{
    match e {
        Expr::If0(c, t, f) => {
            lemma_scoped_closed_top(*c);
            lemma_scoped_closed_top(*t);
            lemma_scoped_closed_top(*f);
        },
        Expr::Op1(_, a) => {
            lemma_scoped_closed_top(*a);
        },
        Expr::Op2(_, l, r) => {
            lemma_scoped_closed_top(*l);
            lemma_scoped_closed_top(*r);
        },
        Expr::Fold { foldee, init, next_id, accum_id, body } => {
            lemma_scoped_closed(*foldee, 1, set![0usize]);
            lemma_scoped_closed(*init, 1, set![0usize]);
            lemma_scoped_closed(*body, 3, set![0usize].insert(next_id).insert(accum_id));
        },
        _ => {},
    }
}

/// What the generator draws from, apart from its random stream: the
/// operators of the problem and the form of a bonus program.
pub struct Setup {
    pub operators: OperatorSet,
    pub loose_bonus: bool,
}

/// The number from `low` up to, not including, `high` that the stream
/// `rng` gives next.
pub open spec fn drawn(rng: XorShiftRng, low: nat, high: nat) -> nat {
    low + rng.word64() as nat % ((high - low) as nat)
}

/// The coin that the stream `rng` gives next.
pub open spec fn coin(rng: XorShiftRng) -> bool {
    rng.step().w & 1 == 1
}

impl Setup {
    /// The unary operators to choose from.
    pub open spec fn op1(self) -> Seq<UnaOp> {
        enabled_op1(self.operators)
    }

    /// The binary operators to choose from.
    pub open spec fn op2(self) -> Seq<BinOp> {
        enabled_op2(self.operators)
    }

    /// Whether there is a unary operator.
    pub open spec fn unary(self) -> bool {
        self.op1().len() > 0
    }

    /// The setup without `if0`.
    pub open spec fn without_if0(self) -> Setup {
        Setup { operators: OperatorSet { if0: false, ..self.operators }, ..self }
    }

    /// The size that the slot sampler draws out of `space`, and the stream
    /// behind the draw: a number from 1 to `space`; where that is a size
    /// that the sampler avoids, one more with room above and a coin that
    /// says so, else one less. The coin is tossed only with room above.
    pub open spec fn size_from(self, rng: XorShiftRng, space: nat, foldable: bool) -> (
        nat,
        XorShiftRng,
    ) {
        let choice = drawn(rng, 1, space + 1);
        let rng = rng.step().step();
        if size_blocked(choice, self.unary(), foldable || self.operators.if0, foldable) {
            if space > choice {
                (nudged(choice, space, coin(rng)), rng.step())
            } else {
                ((choice - 1) as nat, rng)
            }
        } else {
            (choice, rng)
        }
    }

    /// Sizes for two slots that share `total`, and the stream behind the
    /// draws: the first is sampled out of `total - 1`, the second is what
    /// is left; where that does not fit, the draw is made again, `attempts`
    /// times in all, and then given up.
    pub open spec fn split2_from(
        self,
        rng: XorShiftRng,
        total: nat,
        foldable: bool,
        attempts: nat,
    ) -> (Option<(nat, nat)>, XorShiftRng)
        decreases attempts,
    {
        if attempts == 0 {
            (None, rng)
        } else {
            let (left, rng) = self.size_from(rng, (total - 1) as nat, foldable);
            let right = (total - left) as nat;
            if size_fits(right, self.unary(), foldable || self.operators.if0) {
                (Some((left, right)), rng)
            } else {
                self.split2_from(rng, total, foldable, (attempts - 1) as nat)
            }
        }
    }

    /// Sizes for three slots that share `total`, and the stream behind the
    /// draws: the first is sampled out of `total - 2`, the second out of
    /// what is left but 1, the third is what is left then; where that does
    /// not fit, the draws are made again, `attempts` times in all, and
    /// then given up.
    pub open spec fn split3_from(
        self,
        rng: XorShiftRng,
        total: nat,
        foldable: bool,
        attempts: nat,
    ) -> (Option<(nat, nat, nat)>, XorShiftRng)
        decreases attempts,
    {
        if attempts == 0 {
            (None, rng)
        } else {
            let (first, rng) = self.size_from(rng, (total - 2) as nat, foldable);
            let rest = (total - first) as nat;
            let (second, rng) = self.size_from(rng, (rest - 1) as nat, foldable);
            let third = (rest - second) as nat;
            if size_fits(third, self.unary(), foldable || self.operators.if0) {
                (Some((first, second, third)), rng)
            } else {
                self.split3_from(rng, total, foldable, (attempts - 1) as nat)
            }
        }
    }

    /// The expression of the size `size` that the stream `rng` leads to,
    /// and the stream behind it.
    ///
    /// At size 1 it is the atom with the number drawn out of `2 + idents`.
    /// Above, a number is drawn out of the sum of the weights of the forms,
    /// and the form in whose share the number falls is built, the unary
    /// operators first and one by one, then the binary ones, `if0` and
    /// fold. There is no expression where the weights sum to 0, where the
    /// split of the size among the children is given up, and where there
    /// is none for a child; the stream then stays where that showed.
    pub open spec fn expr_from(self, rng: XorShiftRng, size: nat, idents: nat, foldable: bool) -> (
        Option<Expr>,
        XorShiftRng,
    )
        decreases size, 2nat,
    {
        if size <= 1 {
            (Some(RandomGenState::atom(drawn(rng, 0, 2 + idents))), rng.step().step())
        } else {
            let w = form_weights(
                size,
                self.op1().len(),
                self.op2().len(),
                self.operators.if0,
                foldable,
            );
            let total = w.0 + w.1 + w.2 + w.3;
            if total == 0 {
                (None, rng)
            } else {
                let n = drawn(rng, 0, total);
                let rng = rng.step().step();
                if n < w.0 {
                    self.unary_from(rng, n, size, idents, foldable)
                } else if n < w.0 + w.1 {
                    self.binary_from(rng, (n - w.0) as nat, size, idents, foldable)
                } else if n < w.0 + w.1 + w.2 {
                    self.if0_from(rng, size, idents, foldable)
                } else {
                    self.fold_from(rng, size, idents)
                }
            }
        }
    }

    /// The expression for a child of the size `child` under a parent of
    /// the size `limit`.
    pub open spec fn child_from(
        self,
        rng: XorShiftRng,
        child: nat,
        limit: nat,
        idents: nat,
        foldable: bool,
    ) -> (Option<Expr>, XorShiftRng)
        decreases limit, 0nat,
    {
        if child < limit {
            self.expr_from(rng, child, idents, foldable)
        } else {
            (None, rng)
        }
    }

    /// The unary operator with the number `n` over an expression that
    /// fills the rest of `size`.
    pub open spec fn unary_from(
        self,
        rng: XorShiftRng,
        n: nat,
        size: nat,
        idents: nat,
        foldable: bool,
    ) -> (Option<Expr>, XorShiftRng)
        decreases size, 1nat,
    {
        match self.child_from(rng, (size - 1) as nat, size, idents, foldable) {
            (Some(e), rng) => (Some(Expr::Op1(self.op1()[n as int], Box::new(e))), rng),
            (None, rng) => (None, rng),
        }
    }

    /// The sizes of the two children of a binary operator of the size
    /// `size`: 1 and 1 at size 3; 2 and 1 or 1 and 2 at size 4, as a coin
    /// says; above, a split of `size - 1`.
    pub open spec fn binary_sizes(self, rng: XorShiftRng, size: nat, foldable: bool) -> (
        Option<(nat, nat)>,
        XorShiftRng,
    ) {
        if size == 3 {
            (Some((1nat, 1nat)), rng)
        } else if size == 4 {
            (
                Some(
                    if coin(rng) {
                        (2nat, 1nat)
                    } else {
                        (1nat, 2nat)
                    },
                ),
                rng.step(),
            )
        } else {
            self.split2_from(rng, (size - 1) as nat, foldable, SPLIT_ATTEMPTS as nat)
        }
    }

    /// A binary operator over two expressions that share the rest of
    /// `size`. At size 3 the operator is the one with the number `n`;
    /// above, it is drawn after the children.
    pub open spec fn binary_from(
        self,
        rng: XorShiftRng,
        n: nat,
        size: nat,
        idents: nat,
        foldable: bool,
    ) -> (Option<Expr>, XorShiftRng)
        decreases size, 1nat,
    {
        match self.binary_sizes(rng, size, foldable) {
            (None, rng) => (None, rng),
            (Some((l, r)), rng) => match self.child_from(rng, l, size, idents, foldable) {
                (None, rng) => (None, rng),
                (Some(left), rng) => match self.child_from(rng, r, size, idents, foldable) {
                    (None, rng) => (None, rng),
                    (Some(right), rng) => if size == 3 {
                        (Some(Expr::Op2(self.op2()[n as int], Box::new(left), Box::new(right))), rng)
                    } else {
                        (
                            Some(
                                Expr::Op2(
                                    self.op2()[drawn(rng, 0, self.op2().len()) as int],
                                    Box::new(left),
                                    Box::new(right),
                                ),
                            ),
                            rng.step().step(),
                        )
                    },
                },
            },
        }
    }

    /// The sizes of the three children of an `if0` of the size `size`: 1
    /// each at size 4; above, a split of `size - 1`.
    pub open spec fn if0_sizes(self, rng: XorShiftRng, size: nat, foldable: bool) -> (
        Option<(nat, nat, nat)>,
        XorShiftRng,
    ) {
        if size == 4 {
            (Some((1nat, 1nat, 1nat)), rng)
        } else {
            self.split3_from(rng, (size - 1) as nat, foldable, SPLIT_ATTEMPTS as nat)
        }
    }

    /// An `if0` over three expressions that share the rest of `size`:
    /// three atoms at size 4; above, a split of `size - 1`.
    pub open spec fn if0_from(self, rng: XorShiftRng, size: nat, idents: nat, foldable: bool) -> (
        Option<Expr>,
        XorShiftRng,
    )
        decreases size, 1nat,
    {
        match self.if0_sizes(rng, size, foldable) {
            (None, rng) => (None, rng),
            (Some((a, b, c)), rng) => match self.child_from(rng, a, size, idents, foldable) {
                (None, rng) => (None, rng),
                (Some(test), rng) => match self.child_from(rng, b, size, idents, foldable) {
                    (None, rng) => (None, rng),
                    (Some(then), rng) => match self.child_from(rng, c, size, idents, foldable) {
                        (None, rng) => (None, rng),
                        (Some(other), rng) => (
                            Some(Expr::If0(Box::new(test), Box::new(then), Box::new(other))),
                            rng,
                        ),
                    },
                },
            },
        }
    }

    /// A fold over three expressions without folds that share the rest of
    /// `size`, by a split of `size - 2`. It binds 1 and 2, and its body
    /// has two identifiers more in scope.
    pub open spec fn fold_from(self, rng: XorShiftRng, size: nat, idents: nat) -> (
        Option<Expr>,
        XorShiftRng,
    )
        decreases size, 1nat,
    {
        match self.split3_from(rng, (size - 2) as nat, false, SPLIT_ATTEMPTS as nat) {
            (None, rng) => (None, rng),
            (Some((a, b, c)), rng) => match self.child_from(rng, a, size, idents, false) {
                (None, rng) => (None, rng),
                (Some(foldee), rng) => match self.child_from(rng, b, size, idents, false) {
                    (None, rng) => (None, rng),
                    (Some(init), rng) => match self.child_from(rng, c, size, idents + 2, false) {
                        (None, rng) => (None, rng),
                        (Some(body), rng) => (
                            Some(
                                Expr::Fold {
                                    foldee: Box::new(foldee),
                                    init: Box::new(init),
                                    next_id: 1,
                                    accum_id: 2,
                                    body: Box::new(body),
                                },
                            ),
                            rng,
                        ),
                    },
                },
            },
        }
    }

    /// The program with the fold at its top, over a body of the size
    /// `size - 5` without folds and with two identifiers in scope.
    pub open spec fn tfold_from(self, rng: XorShiftRng, size: nat) -> (
        Option<Program>,
        XorShiftRng,
    ) {
        match self.expr_from(rng, (size - 5) as nat, 2, false) {
            (None, rng) => (None, rng),
            (Some(body), rng) => (
                Some(
                    Program {
                        id: 2,
                        expr: Box::new(
                            Expr::Fold {
                                foldee: Box::new(Expr::Ident(2)),
                                init: Box::new(Expr::Zero),
                                next_id: 0,
                                accum_id: 1,
                                body: Box::new(body),
                            },
                        ),
                    },
                ),
                rng,
            ),
        }
    }

    /// An arm of a bonus program of the size `size`: as a coin says, a
    /// binary operator, drawn before its arguments, over two expressions
    /// of which the first has a sampled size; or a unary operator, drawn
    /// before its argument, over one.
    pub open spec fn arm_from(self, rng: XorShiftRng, size: nat) -> (Expr, XorShiftRng) {
        if coin(rng) {
            let (a1, rng) = self.size_from(rng.step(), (size - 2) as nat, false);
            let a2 = (size - 1 - a1) as nat;
            let op = self.op2()[drawn(rng, 0, self.op2().len()) as int];
            let (e1, rng) = self.expr_from(rng.step().step(), a1, 1, false);
            let (e2, rng) = self.expr_from(rng, a2, 1, false);
            (Expr::Op2(op, Box::new(e1->0), Box::new(e2->0)), rng)
        } else {
            let rng = rng.step();
            let op = self.op1()[drawn(rng, 0, self.op1().len()) as int];
            let (e, rng) = self.expr_from(rng.step().step(), (size - 1) as nat, 1, false);
            (Expr::Op1(op, Box::new(e->0)), rng)
        }
    }

    /// The condition of a bonus program and its size: `and` of a binary
    /// operator over two expressions and of an atom. The atom is drawn
    /// first; the binary operator with its arguments has a size sampled
    /// out of `space`, but 3 at least.
    pub open spec fn condition_from(self, rng: XorShiftRng, space: nat) -> (
        (Expr, nat),
        XorShiftRng,
    ) {
        let (atomic, rng) = self.expr_from(rng, 1, 1, false);
        let (sampled, rng) = self.size_from(rng, space, false);
        let partial: nat = if sampled < 3 {
            3
        } else {
            sampled
        };
        let op = self.op2()[drawn(rng, 0, self.op2().len()) as int];
        let (l, rng) = self.size_from(rng.step().step(), (partial - 2) as nat, false);
        let r = (partial - 1 - l) as nat;
        let (left, rng) = self.expr_from(rng, l, 1, false);
        let (right, rng) = self.expr_from(rng, r, 1, false);
        (
            (
                Expr::Op2(
                    BinOp::And,
                    Box::new(Expr::Op2(op, Box::new(left->0), Box::new(right->0))),
                    Box::new(atomic->0),
                ),
                partial + 2,
            ),
            rng,
        )
    }

    /// The condition and the two arms of a bonus program of the size
    /// `size`. The condition leaves 6 for the arms at least; the first arm
    /// has a size drawn from 3 up to what leaves 3 for the second.
    pub open spec fn bonus_parts(self, rng: XorShiftRng, size: nat) -> (
        (Expr, Expr, Expr),
        XorShiftRng,
    ) {
        let remaining = (size - 2) as nat;
        let ((cond, cond_s), rng) = self.condition_from(rng, (remaining - 8) as nat);
        let arms = (remaining - cond_s) as nat;
        let left_s = drawn(rng, 3, (arms - 2) as nat);
        let (left, rng) = self.arm_from(rng.step().step(), left_s);
        let (right, rng) = self.arm_from(rng, (arms - left_s) as nat);
        ((cond, left, right), rng)
    }

    /// The bonus program of the size `size`: an `if0` over a condition
    /// and two arms that are built without `if0`.
    pub open spec fn bonus_from(self, rng: XorShiftRng, size: nat) -> (
        Option<Program>,
        XorShiftRng,
    ) {
        let ((cond, left, right), rng) = self.without_if0().bonus_parts(rng, size);
        (
            Some(
                Program {
                    id: 0,
                    expr: Box::new(Expr::If0(Box::new(cond), Box::new(left), Box::new(right))),
                },
            ),
            rng,
        )
    }

    /// Whether an expression of the size `size` may be asked for: the
    /// size is 1 at least; a size of 2 needs a unary operator; a size of 4
    /// needs a unary operator, `if0` or a fold that may still come.
    pub open spec fn askable(self, size: nat, foldable: bool) -> bool {
        &&& size >= 1
        &&& size == 2 ==> self.unary()
        &&& size == 4 ==> self.unary() || self.operators.if0 || foldable
    }

    /// The bonus program of the size `size` that is an `if0` over any
    /// three expressions without folds: the first two have sampled sizes.
    /// There is none where the third may not be asked for.
    pub open spec fn loose_from(self, rng: XorShiftRng, size: nat) -> (
        Option<Program>,
        XorShiftRng,
    ) {
        let remaining = (size - 2) as nat;
        let (cond_s, rng) = self.size_from(rng, (remaining - 2) as nat, false);
        let rest = (remaining - cond_s) as nat;
        let (then_s, rng) = self.size_from(rng, (rest - 1) as nat, false);
        let else_s = (rest - then_s) as nat;
        if !self.askable(else_s, false) {
            (None, rng)
        } else {
            match self.expr_from(rng, cond_s, 1, false) {
                (None, rng) => (None, rng),
                (Some(cond), rng) => match self.expr_from(rng, then_s, 1, false) {
                    (None, rng) => (None, rng),
                    (Some(then), rng) => match self.expr_from(rng, else_s, 1, false) {
                        (None, rng) => (None, rng),
                        (Some(other), rng) => (
                            Some(
                                Program {
                                    id: 0,
                                    expr: Box::new(
                                        Expr::If0(
                                            Box::new(cond),
                                            Box::new(then),
                                            Box::new(other),
                                        ),
                                    ),
                                },
                            ),
                            rng,
                        ),
                    },
                },
            }
        }
    }

    /// The program of the size `size` that the stream `rng` leads to, and
    /// the stream behind it: of the form that the operators fix, a fold at
    /// the top with `tfold`, an `if0` with `bonus`, else any expression of
    /// the size `size - 1` over the argument, with a fold where the
    /// operators have one.
    pub open spec fn program_from(self, rng: XorShiftRng, size: nat) -> (
        Option<Program>,
        XorShiftRng,
    ) {
        if self.operators.tfold {
            self.tfold_from(rng, size)
        } else if self.operators.bonus {
            if self.loose_bonus {
                self.loose_from(rng, size)
            } else {
                self.bonus_from(rng, size)
            }
        } else {
            match self.expr_from(rng, (size - 1) as nat, 1, self.operators.fold) {
                (None, rng) => (None, rng),
                (Some(e), rng) => (Some(Program { id: 0, expr: Box::new(e) }), rng),
            }
        }
    }

    /// The stream behind the first `k` candidates of the size `size`.
    pub open spec fn stream(self, rng: XorShiftRng, size: nat, k: nat) -> XorShiftRng
        decreases k,
    {
        if k == 0 {
            rng
        } else {
            self.program_from(self.stream(rng, size, (k - 1) as nat), size).1
        }
    }

    /// The candidate with the number `k`, counted from 0, among those of
    /// the size `size` that the stream `rng` leads to.
    pub open spec fn candidate(self, rng: XorShiftRng, size: nat, k: nat) -> Option<Program> {
        self.program_from(self.stream(rng, size, k), size).0
    }
}

/// The generator of one worker: its stream of random numbers, the operators
/// of the problem, and the operators to choose from, listed once.
#[derive(Debug)]
pub struct RandomGenState {
    pub rng: XorShiftRng,
    pub operators: OperatorSet,
    pub op1_len: usize,
    pub op1_choices: Vec<UnaOp>,
    pub op2_len: usize,
    pub op2_choices: Vec<BinOp>,
    /// Whether a bonus program is an `if0` over any condition, and not one
    /// over `and` of a binary operator and an atom.
    pub loose_bonus: bool,
}

/// The unary operators of `ops`, in their fixed order.
fn collect_op1(ops: &OperatorSet) -> (v: Vec<UnaOp>)
    ensures
        v@ == enabled_op1(*ops),
{
    let mut v: Vec<UnaOp> = Vec::new();
    if UnaOp::Not.in_ops(ops) {
        v.push(UnaOp::Not);
    }
    if UnaOp::Shl1.in_ops(ops) {
        v.push(UnaOp::Shl1);
    }
    if UnaOp::Shr1.in_ops(ops) {
        v.push(UnaOp::Shr1);
    }
    if UnaOp::Shr4.in_ops(ops) {
        v.push(UnaOp::Shr4);
    }
    if UnaOp::Shr16.in_ops(ops) {
        v.push(UnaOp::Shr16);
    }
    assert(v@ =~= enabled_op1(*ops));
    v
}

/// The binary operators of `ops`, in their fixed order.
fn collect_op2(ops: &OperatorSet) -> (v: Vec<BinOp>)
    ensures
        v@ == enabled_op2(*ops),
{
    let mut v: Vec<BinOp> = Vec::new();
    if BinOp::And.in_ops(ops) {
        v.push(BinOp::And);
    }
    if BinOp::Or.in_ops(ops) {
        v.push(BinOp::Or);
    }
    if BinOp::Xor.in_ops(ops) {
        v.push(BinOp::Xor);
    }
    if BinOp::Plus.in_ops(ops) {
        v.push(BinOp::Plus);
    }
    assert(v@ =~= enabled_op2(*ops));
    v
}

impl RandomGenState {
    /// Whether the lists of choices are those of the operators.
    pub open spec fn wf(self) -> bool {
        &&& self.op1_choices@ == enabled_op1(self.operators)
        &&& self.op2_choices@ == enabled_op2(self.operators)
        &&& self.op1_len == self.op1_choices@.len()
        &&& self.op2_len == self.op2_choices@.len()
    }

    /// What this state draws from, apart from its random stream.
    pub open spec fn setup(self) -> Setup {
        Setup { operators: self.operators, loose_bonus: self.loose_bonus }
    }

    /// Whether `other` differs from this state in its random stream at most.
    pub open spec fn same_setup(self, other: RandomGenState) -> bool {
        &&& self.operators == other.operators
        &&& self.op1_len == other.op1_len
        &&& self.op1_choices@ == other.op1_choices@
        &&& self.op2_len == other.op2_len
        &&& self.op2_choices@ == other.op2_choices@
        &&& self.loose_bonus == other.loose_bonus
    }

    /// The state for the operators of `problem`, its random stream seeded
    /// with `seed`. Programs of the size of `problem` can be asked of it
    /// where they can be asked for `problem`.
    pub fn new(problem: Problem, seed: u64) -> (state: RandomGenState)
        ensures
            state.wf(),
            state.operators == problem.operators,
            state.rng == XorShiftRng::seeded(seed),
            !state.loose_bonus,
            valid_request(problem) ==> state.accepts(problem.size as nat),
    {
        let op1_choices = collect_op1(&problem.operators);
        let op2_choices = collect_op2(&problem.operators);
        RandomGenState {
            rng: XorShiftRng::from_seed(seed),
            operators: problem.operators,
            op1_len: op1_choices.len(),
            op1_choices,
            op2_len: op2_choices.len(),
            op2_choices,
            loose_bonus: false,
        }
    }

    /// Takes over the operators of `problem`, for which programs can be
    /// asked. The random stream goes on.
    pub fn reset(&mut self, problem: Problem)
        requires
            valid_request(problem),
        ensures
            final(self).wf(),
            final(self).operators == problem.operators,
            final(self).rng == old(self).rng,
            final(self).loose_bonus == old(self).loose_bonus,
            final(self).accepts(problem.size as nat),
    {
        let op1_choices = collect_op1(&problem.operators);
        let op2_choices = collect_op2(&problem.operators);
        self.operators = problem.operators;
        self.op1_len = op1_choices.len();
        self.op1_choices = op1_choices;
        self.op2_len = op2_choices.len();
        self.op2_choices = op2_choices;
    }

    /// A copy of the setup with a random stream of its own, seeded with `seed`.
    pub fn fork(&self, seed: u64) -> (state: RandomGenState)
        ensures
            state.same_setup(*self),
            state.rng == XorShiftRng::seeded(seed),
    {
        RandomGenState {
            rng: XorShiftRng::from_seed(seed),
            operators: self.operators,
            op1_len: self.op1_len,
            op1_choices: self.op1_choices.clone(),
            op2_len: self.op2_len,
            op2_choices: self.op2_choices.clone(),
            loose_bonus: self.loose_bonus,
        }
    }

    /// Whether a slot that is left over may have the size `choice`.
    pub fn check_size(&self, choice: usize, foldable: bool) -> (ok: bool)
        ensures
            ok == size_fits(choice as nat, self.op1_len > 0, foldable || self.operators.if0),
    {
        let have_unaops = self.op1_len > 0;
        let have_fold_or_if0 = foldable || self.operators.if0;
        if have_unaops {
            return true;
        }
        if !have_fold_or_if0 && choice % 2 == 0 {
            return false;
        }
        choice != 6 && choice != 2
    }

    /// A size for one slot out of `space`: a uniform draw from 1 to `space`,
    /// moved by one where the draw is a size that the sampler avoids.
    pub fn gen_size(&mut self, space: usize, foldable: bool) -> (size: usize)
        requires
            old(self).wf(),
            1 <= space < usize::MAX,
        ensures
            final(self).wf(),
            final(self).same_setup(*old(self)),
            (size as nat, final(self).rng) == old(self).setup().size_from(
                old(self).rng,
                space as nat,
                foldable,
            ),
            1 <= size <= space,
            !size_blocked(
                size as nat,
                old(self).op1_len > 0,
                foldable || old(self).operators.if0,
                foldable,
            ),
    {
        let have_unaops = self.op1_len > 0;
        let have_fold_or_if0 = foldable || self.operators.if0;
        let choice = self.rng.gen_range(1, space + 1);
        if !is_blocked(choice, have_unaops, have_fold_or_if0, foldable) {
            return choice;
        }
        // the coin is tossed only where there is room above
        let up = space > choice && self.rng.gen_bool();
        nudge(choice, space, up)
    }
}

impl RandomGenState {
    /// Whether `e` is an expression that `gen_expr` may give for the size
    /// `size`, with `idents` identifiers in scope: of that size exactly, over
    /// the operators of the problem, with a fold only where `foldable`, none
    /// inside another, and identifiers as the generator hands them out.
    pub open spec fn yields(self, e: Expr, size: nat, idents: nat, foldable: bool) -> bool {
        &&& e.size() == size
        &&& self.operators.covers(e)
        &&& e.uses_fold() ==> foldable
        &&& e.folds_flat()
        &&& scoped(e, idents)
    }

    /// The atom with the number `choice`: zero, one, then the identifiers.
    pub open spec fn atom(choice: nat) -> Expr {
        if choice == 0 {
            Expr::Zero
        } else if choice == 1 {
            Expr::One
        } else {
            Expr::Ident((choice - 2) as Id)
        }
    }

    /// Whether `e` has the form that the first draw of the stream picks for
    /// the size `size`: at size 1 the atom with the number drawn out of
    /// `2 + idents`; above, with the number drawn out of the sum of the
    /// weights, the form in whose share of the weights the number falls,
    /// the unary operators first and one by one, then the binary ones,
    /// `if0` and fold.
    pub open spec fn picks(self, e: Expr, size: nat, idents: nat, foldable: bool) -> bool {
        if size <= 1 {
            e == Self::atom(self.rng.word64() as nat % (2 + idents))
        } else {
            let w = form_weights(
                size,
                self.op1_len as nat,
                self.op2_len as nat,
                self.operators.if0,
                foldable,
            );
            let n = self.rng.word64() as nat % (w.0 + w.1 + w.2 + w.3);
            if n < w.0 {
                e is Op1 && e->Op1_0 == self.op1_choices@[n as int]
            } else if n < w.0 + w.1 {
                e is Op2 && (size == 3 ==> e->Op2_0 == self.op2_choices@[n - w.0])
            } else if n < w.0 + w.1 + w.2 {
                e is If0
            } else {
                e is Fold
            }
        }
    }

    /// Whether an expression of the size `size` is made for certain: an
    /// atom always is; a unary operator fills every size; a binary
    /// operator fills size 3, `if0` size 4; binary operators alone,
    /// without `if0` and fold, fill every odd size.
    pub open spec fn sure(self, size: nat, foldable: bool) -> bool {
        ||| size == 1
        ||| self.op1_len > 0
        ||| size == 3 && self.op2_len > 0
        ||| size == 4 && self.operators.if0
        ||| self.op2_len > 0 && !self.operators.if0 && !foldable && size % 2 == 1
    }

    /// Whether an expression of the size `size` may be asked for: the
    /// size is 1 at least; a size of 2 needs a unary operator; a size of 4
    /// needs a unary operator, `if0` or a fold that may still come.
    pub fn can_ask(&self, size: usize, foldable: bool) -> (ok: bool)
        requires
            self.wf(),
        ensures
            ok == self.setup().askable(size as nat, foldable),
    {
        size >= 1 && (size != 2 || self.op1_len > 0) && (size != 4 || self.op1_len > 0
            || self.operators.if0 || foldable)
    }

    /// The weights of the forms for an expression of the size `size`.
    pub fn weights(&self, size: usize, foldable: bool) -> (w: Weights)
        requires
            self.wf(),
            2 <= size <= MAX_SIZE,
        ensures
            (w.op1 as nat, w.op2 as nat, w.if0 as nat, w.fold as nat) == form_weights(
                size as nat,
                self.op1_len as nat,
                self.op2_len as nat,
                self.operators.if0,
                foldable,
            ),
            w.op1 + w.op2 + w.if0 + w.fold <= 100000,
    {
        proof {
            lemma_enabled_op1(self.operators);
            lemma_enabled_op2(self.operators);
        }
        let have_unaops = self.op1_len > 0;
        let have_if0 = self.operators.if0;
        if size == 2 {
            Weights { op1: self.op1_len, op2: 0, if0: 0, fold: 0 }
        } else if size == 3 {
            Weights { op1: self.op1_len, op2: self.op2_len, if0: 0, fold: 0 }
        } else if size == 4 {
            Weights {
                op1: self.op1_len,
                op2: if have_unaops {
                    self.op2_len
                } else {
                    0
                },
                if0: if have_if0 {
                    1
                } else {
                    0
                },
                fold: 0,
            }
        } else {
            let spaces = size - 1;
            assert(spaces * (spaces - 1) <= 254 * 253 && self.op2_len * (spaces - 1) <= 4 * 253)
                by (nonlinear_arith)
                requires
                    4 <= spaces <= 254,
                    self.op2_len <= 4,
            ;
            let triples = spaces * (spaces - 1) / 2;
            let gen_binop = have_unaops || size % 2 == 1 || have_if0;
            let gen_if = have_if0 && (have_unaops || size > 6);
            let gen_fold = foldable && (have_unaops || (have_if0 && (size == 8 || size == 10)) || (
            size != 5 && size != 6 && size != 8 && size != 10));
            Weights {
                op1: self.op1_len,
                op2: if gen_binop {
                    self.op2_len * (spaces - 1)
                } else {
                    0
                },
                if0: if gen_if {
                    triples
                } else {
                    0
                },
                fold: if gen_fold {
                    triples
                } else {
                    0
                },
            }
        }
    }

    /// One of the binary operators of the problem, each as likely as the others.
    fn choose_op2(&mut self) -> (op: BinOp)
        requires
            old(self).wf(),
            old(self).op2_len > 0,
        ensures
            final(self).wf(),
            final(self).same_setup(*old(self)),
            old(self).operators.has_op2(op),
            op == old(self).setup().op2()[drawn(old(self).rng, 0, old(self).op2_len as nat) as int],
            final(self).rng == old(self).rng.step().step(),
    {
        proof {
            lemma_enabled_op2(self.operators);
        }
        let i = self.rng.gen_range(0, self.op2_len);
        self.op2_choices[i]
    }

    /// One of the unary operators of the problem, each as likely as the others.
    fn choose_op1(&mut self) -> (op: UnaOp)
        requires
            old(self).wf(),
            old(self).op1_len > 0,
        ensures
            final(self).wf(),
            final(self).same_setup(*old(self)),
            old(self).operators.has_op1(op),
            op == old(self).setup().op1()[drawn(old(self).rng, 0, old(self).op1_len as nat) as int],
            final(self).rng == old(self).rng.step().step(),
    {
        proof {
            lemma_enabled_op1(self.operators);
        }
        let i = self.rng.gen_range(0, self.op1_len);
        self.op1_choices[i]
    }

    /// Sizes for two slots that share `total`: the first is sampled, the
    /// second is what is left and has to fit. Gives up after `SPLIT_ATTEMPTS` draws.
    fn split2(&mut self, total: usize, foldable: bool) -> (r: Option<(usize, usize)>)
        requires
            old(self).wf(),
            2 <= total <= MAX_SIZE,
        ensures
            final(self).wf(),
            final(self).same_setup(*old(self)),
            old(self).setup().split2_from(old(self).rng, total as nat, foldable, SPLIT_ATTEMPTS as nat)
                == (
                match r {
                    Some((left, right)) => Some((left as nat, right as nat)),
                    None => None,
                },
                final(self).rng,
            ),
            match r {
                Some((left, right)) => {
                    &&& 1 <= left && 1 <= right && left + right == total
                    &&& old(self).setup().askable(left as nat, foldable)
                    &&& old(self).setup().askable(right as nat, foldable)
                    &&& old(self).op1_len == 0 && !foldable && !old(self).operators.if0 ==> left
                        % 2 == 1 && right % 2 == 1
                },
                None => old(self).op1_len == 0 && (foldable || old(self).operators.if0 || total % 2
                    == 1),
            },
    {
        let mut attempts: usize = 0;
        proof {
            lemma_enabled_op1(self.operators);
        }
        while attempts < SPLIT_ATTEMPTS
            invariant
                self.wf(),
                self.same_setup(*old(self)),
                2 <= total <= MAX_SIZE,
                attempts <= SPLIT_ATTEMPTS,
                attempts > 0 ==> self.op1_len == 0 && (foldable || self.operators.if0 || total % 2
                    == 1),
                old(self).setup().split2_from(
                    old(self).rng,
                    total as nat,
                    foldable,
                    SPLIT_ATTEMPTS as nat,
                ) == old(self).setup().split2_from(
                    self.rng,
                    total as nat,
                    foldable,
                    (SPLIT_ATTEMPTS - attempts) as nat,
                ),
            decreases SPLIT_ATTEMPTS - attempts,
        {
            let left = self.gen_size(total - 1, foldable);
            let right = total - left;
            if self.check_size(right, foldable) {
                return Some((left, right));
            }
            attempts = attempts + 1;
        }
        None
    }

    /// Sizes for three slots that share `total`: two are sampled one after
    /// the other, the third is what is left and has to fit. Gives up after
    /// `SPLIT_ATTEMPTS` draws.
    fn split3(&mut self, total: usize, foldable: bool) -> (r: Option<(usize, usize, usize)>)
        requires
            old(self).wf(),
            3 <= total <= MAX_SIZE,
        ensures
            final(self).wf(),
            final(self).same_setup(*old(self)),
            old(self).setup().split3_from(old(self).rng, total as nat, foldable, SPLIT_ATTEMPTS as nat)
                == (
                match r {
                    Some((first, second, third)) => Some(
                        (first as nat, second as nat, third as nat),
                    ),
                    None => None,
                },
                final(self).rng,
            ),
            match r {
                Some((first, second, third)) => {
                    &&& 1 <= first && 1 <= second && 1 <= third && first + second + third == total
                    &&& old(self).setup().askable(first as nat, foldable)
                    &&& old(self).setup().askable(second as nat, foldable)
                    &&& old(self).setup().askable(third as nat, foldable)
                },
                None => old(self).op1_len == 0,
            },
    {
        let mut attempts: usize = 0;
        proof {
            lemma_enabled_op1(self.operators);
        }
        while attempts < SPLIT_ATTEMPTS
            invariant
                self.wf(),
                self.same_setup(*old(self)),
                3 <= total <= MAX_SIZE,
                attempts <= SPLIT_ATTEMPTS,
                attempts > 0 ==> self.op1_len == 0,
                old(self).setup().split3_from(
                    old(self).rng,
                    total as nat,
                    foldable,
                    SPLIT_ATTEMPTS as nat,
                ) == old(self).setup().split3_from(
                    self.rng,
                    total as nat,
                    foldable,
                    (SPLIT_ATTEMPTS - attempts) as nat,
                ),
            decreases SPLIT_ATTEMPTS - attempts,
        {
            let first = self.gen_size(total - 2, foldable);
            let rest = total - first;
            let second = self.gen_size(rest - 1, foldable);
            let third = rest - second;
            if self.check_size(third, foldable) {
                return Some((first, second, third));
            }
            attempts = attempts + 1;
        }
        None
    }

    /// A random expression of the size `size` exactly, with `idents`
    /// identifiers in scope, and with a fold at most where `foldable`: the
    /// one that the random stream leads to by `Setup::expr_from`.
    ///
    /// At size 1 it is a constant or an identifier. Above, the form is drawn
    /// by `form_weights`, and the sizes of the children by `gen_size`.
    /// There is no expression where the weights of the forms sum to 0,
    /// where a split of the size among the children is given up after
    /// `SPLIT_ATTEMPTS` draws, and where there is none for a child; where
    /// `sure` holds there always is one.
    #[verifier::rlimit(100)]
    #[verifier::spinoff_prover]
    pub fn gen_expr(&mut self, size: usize, idents: usize, foldable: bool) -> (r: Option<Expr>)
        requires
            old(self).wf(),
            idents + 2 <= usize::MAX,
            foldable ==> idents + 4 <= usize::MAX,
            size <= MAX_SIZE,
            old(self).setup().askable(size as nat, foldable),
        ensures
            final(self).wf(),
            final(self).same_setup(*old(self)),
            (r, final(self).rng) == old(self).setup().expr_from(old(self).rng, size as nat, idents as nat, foldable),
            match r {
                Some(e) => old(self).yields(e, size as nat, idents as nat, foldable) && old(
                    self,
                ).picks(e, size as nat, idents as nat, foldable),
                None => !old(self).sure(size as nat, foldable),
            },
        decreases size, 1nat,
    {
        proof {
            lemma_enabled_op1(self.operators);
            lemma_enabled_op2(self.operators);
        }
        if size == 1 {
            let choice = self.rng.gen_range(0, 2 + idents);
            let e = if choice == 0 {
                Expr::Zero
            } else if choice == 1 {
                Expr::One
            } else {
                Expr::Ident(choice - 2)
            };
            proof {
                lemma_covers(self.operators, e);
            }
            return Some(e);
        }
        let w = self.weights(size, foldable);
        let total = w.op1 + w.op2 + w.if0 + w.fold;
        assert(self.op2_len > 0 && size >= 5 ==> self.op2_len * (size - 2) > 0) by (nonlinear_arith);
        if total == 0 {
            return None;
        }
        let n = self.rng.gen_range(0, total);
        if n < w.op1 {
            self.gen_unary(n, size, idents, foldable)
        } else if n < w.op1 + w.op2 {
            assert(self.op2_len > 0) by (nonlinear_arith)
                requires
                    w.op2 > 0,
                    w.op2 == self.op2_len || w.op2 == self.op2_len * (size - 2),
            ;
            self.gen_binary(n - w.op1, size, idents, foldable)
        } else if n < w.op1 + w.op2 + w.if0 {
            self.gen_if0(size, idents, foldable)
        } else {
            self.gen_fold(size, idents)
        }
    }

    /// A unary operator, the one with the number `n`, over an expression
    /// that fills the rest of `size`.
    fn gen_unary(&mut self, n: usize, size: usize, idents: usize, foldable: bool) -> (r: Option<
        Expr,
    >)
        requires
            old(self).wf(),
            idents + 2 <= usize::MAX,
            foldable ==> idents + 4 <= usize::MAX,
            2 <= size <= MAX_SIZE,
            n < old(self).op1_len,
        ensures
            final(self).wf(),
            final(self).same_setup(*old(self)),
            (r, final(self).rng) == old(self).setup().unary_from(old(self).rng, n as nat, size as nat, idents as nat, foldable),
            match r {
                Some(e) => old(self).yields(e, size as nat, idents as nat, foldable) && e is Op1
                    && e->Op1_0 == old(self).op1_choices@[n as int],
                None => !old(self).sure(size as nat, foldable),
            },
        decreases size, 0nat,
    {
        proof {
            lemma_enabled_op1(self.operators);
        }
        let op = self.op1_choices[n];
        let expr = match self.gen_expr(size - 1, idents, foldable) {
            Some(e) => e,
            None => { return None; },
        };
        let e = Expr::Op1(op, Box::new(expr));
        proof {
            lemma_covers(self.operators, e);
        }
        Some(e)
    }

    /// The sizes of the two children of a binary operator of the size `size`.
    fn gen_binary_sizes(&mut self, size: usize, foldable: bool) -> (r: Option<(usize, usize)>)
        requires
            old(self).wf(),
            3 <= size <= MAX_SIZE,
            size == 4 ==> old(self).op1_len > 0,
        ensures
            final(self).wf(),
            final(self).same_setup(*old(self)),
            old(self).setup().binary_sizes(old(self).rng, size as nat, foldable) == (
                match r {
                    Some((left, right)) => Some((left as nat, right as nat)),
                    None => None,
                },
                final(self).rng,
            ),
            match r {
                Some((left, right)) => {
                    &&& 1 <= left && 1 <= right && left + right + 1 == size
                    &&& old(self).setup().askable(left as nat, foldable)
                    &&& old(self).setup().askable(right as nat, foldable)
                    &&& old(self).op1_len == 0 && !foldable && !old(self).operators.if0 && size % 2
                        == 1 ==> left % 2 == 1 && right % 2 == 1
                },
                None => size >= 5 && old(self).op1_len == 0 && (foldable || old(
                    self,
                ).operators.if0 || size % 2 == 0),
            },
    {
        proof {
            lemma_enabled_op1(self.operators);
        }
        if size == 3 {
            Some((1, 1))
        } else if size == 4 {
            if self.rng.gen_bool() {
                Some((2, 1))
            } else {
                Some((1, 2))
            }
        } else {
            self.split2(size - 1, foldable)
        }
    }

    /// A binary operator over two expressions that share the rest of `size`.
    /// At size 3 the operator is the one with the number `n`; above, it is
    /// drawn after the children.
    #[verifier::rlimit(100)]
    #[verifier::spinoff_prover]
    fn gen_binary(&mut self, n: usize, size: usize, idents: usize, foldable: bool) -> (r: Option<
        Expr,
    >)
        requires
            old(self).wf(),
            idents + 2 <= usize::MAX,
            foldable ==> idents + 4 <= usize::MAX,
            3 <= size <= MAX_SIZE,
            old(self).op2_len > 0,
            size == 3 ==> n < old(self).op2_len,
            size == 4 ==> old(self).op1_len > 0,
        ensures
            final(self).wf(),
            final(self).same_setup(*old(self)),
            (r, final(self).rng) == old(self).setup().binary_from(old(self).rng, n as nat, size as nat, idents as nat, foldable),
            match r {
                Some(e) => old(self).yields(e, size as nat, idents as nat, foldable) && e is Op2
                    && (size == 3 ==> e->Op2_0 == old(self).op2_choices@[n as int]),
                None => !old(self).sure(size as nat, foldable),
            },
        decreases size, 0nat,
    {
        proof {
            lemma_enabled_op2(self.operators);
        }
        let (left_size, right_size) = match self.gen_binary_sizes(size, foldable) {
            Some(sizes) => sizes,
            None => { return None; },
        };
        let left = match self.gen_expr(left_size, idents, foldable) {
            Some(e) => e,
            None => { return None; },
        };
        let right = match self.gen_expr(right_size, idents, foldable) {
            Some(e) => e,
            None => { return None; },
        };
        let op = if size == 3 {
            self.op2_choices[n]
        } else {
            self.choose_op2()
        };
        let e = Expr::Op2(op, Box::new(left), Box::new(right));
        proof {
            lemma_covers(self.operators, e);
        }
        Some(e)
    }

    /// The sizes of the three children of an `if0` of the size `size`.
    fn gen_if0_sizes(&mut self, size: usize, foldable: bool) -> (r: Option<(usize, usize, usize)>)
        requires
            old(self).wf(),
            4 <= size <= MAX_SIZE,
        ensures
            final(self).wf(),
            final(self).same_setup(*old(self)),
            old(self).setup().if0_sizes(old(self).rng, size as nat, foldable) == (
                match r {
                    Some((first, second, third)) => Some(
                        (first as nat, second as nat, third as nat),
                    ),
                    None => None,
                },
                final(self).rng,
            ),
            match r {
                Some((first, second, third)) => {
                    &&& 1 <= first && 1 <= second && 1 <= third && first + second + third + 1
                        == size
                    &&& old(self).setup().askable(first as nat, foldable)
                    &&& old(self).setup().askable(second as nat, foldable)
                    &&& old(self).setup().askable(third as nat, foldable)
                },
                None => size >= 5 && old(self).op1_len == 0,
            },
    {
        if size == 4 {
            Some((1, 1, 1))
        } else {
            self.split3(size - 1, foldable)
        }
    }

    /// An `if0` over three expressions that share the rest of `size`.
    #[verifier::rlimit(100)]
    #[verifier::spinoff_prover]
    fn gen_if0(&mut self, size: usize, idents: usize, foldable: bool) -> (r: Option<Expr>)
        requires
            old(self).wf(),
            idents + 2 <= usize::MAX,
            foldable ==> idents + 4 <= usize::MAX,
            4 <= size <= MAX_SIZE,
            old(self).operators.if0,
        ensures
            final(self).wf(),
            final(self).same_setup(*old(self)),
            (r, final(self).rng) == old(self).setup().if0_from(old(self).rng, size as nat, idents as nat, foldable),
            match r {
                Some(e) => old(self).yields(e, size as nat, idents as nat, foldable) && e is If0,
                None => !old(self).sure(size as nat, foldable),
            },
        decreases size, 0nat,
    {
        let (test_size, then_size, other_size) = match self.gen_if0_sizes(size, foldable) {
            Some(sizes) => sizes,
            None => { return None; },
        };
        let test = match self.gen_expr(test_size, idents, foldable) {
            Some(e) => e,
            None => { return None; },
        };
        let then = match self.gen_expr(then_size, idents, foldable) {
            Some(e) => e,
            None => { return None; },
        };
        let other = match self.gen_expr(other_size, idents, foldable) {
            Some(e) => e,
            None => { return None; },
        };
        let e = Expr::If0(Box::new(test), Box::new(then), Box::new(other));
        proof {
            lemma_covers(self.operators, e);
        }
        Some(e)
    }

    /// A fold over three expressions without folds that share the rest of
    /// `size`. It binds 1 and 2, and its body has two identifiers more in scope.
    #[verifier::rlimit(100)]
    #[verifier::spinoff_prover]
    fn gen_fold(&mut self, size: usize, idents: usize) -> (r: Option<Expr>)
        requires
            old(self).wf(),
            5 <= size <= MAX_SIZE,
            idents + 4 <= usize::MAX,
        ensures
            final(self).wf(),
            final(self).same_setup(*old(self)),
            (r, final(self).rng) == old(self).setup().fold_from(old(self).rng, size as nat, idents as nat),
            match r {
                Some(e) => old(self).yields(e, size as nat, idents as nat, true) && e is Fold,
                None => !old(self).sure(size as nat, true),
            },
        decreases size, 0nat,
    {
        let (foldee_size, init_size, body_size) = match self.split3(size - 2, false) {
            Some(sizes) => sizes,
            None => { return None; },
        };
        let foldee = match self.gen_expr(foldee_size, idents, false) {
            Some(e) => e,
            None => { return None; },
        };
        let init = match self.gen_expr(init_size, idents, false) {
            Some(e) => e,
            None => { return None; },
        };
        let body = match self.gen_expr(body_size, idents + 2, false) {
            Some(e) => e,
            None => { return None; },
        };
        let e = Expr::Fold {
            foldee: Box::new(foldee),
            init: Box::new(init),
            next_id: 1,
            accum_id: 2,
            body: Box::new(body),
        };
        proof {
            lemma_covers(self.operators, e);
        }
        Some(e)
    }
}

impl RandomGenState {
    /// Whether a program of the size `size` can be asked for: the size
    /// leaves room for the form that the operators fix, an expression of
    /// the size that is left exists over the operators, and a bonus form
    /// finds the operators it is built from.
    pub open spec fn accepts(self, size: nat) -> bool {
        &&& size <= MAX_SIZE
        &&& if self.operators.tfold {
            size >= 6 && fillable(
                (size - 5) as nat,
                self.op1_len > 0,
                self.op2_len > 0,
                self.operators.if0,
                false,
            )
        } else if self.operators.bonus {
            if self.loose_bonus {
                size >= 5 && self.operators.if0
            } else {
                &&& size >= 13
                &&& self.operators.if0
                &&& self.operators.has_op2(BinOp::And)
                &&& self.op1_len > 0
            }
        } else {
            size >= 2 && fillable(
                (size - 1) as nat,
                self.op1_len > 0,
                self.op2_len > 0,
                self.operators.if0,
                self.operators.fold,
            )
        }
    }

    /// Whether `p` is a program that `gen_program` may give for the size
    /// `size`: of that size exactly, over the operators of the problem, with
    /// nothing unbound, and of the form that the operators fix.
    pub open spec fn makes(self, p: Program, size: nat) -> bool {
        &&& p.size() == size
        &&& p.wf()
        &&& self.operators.admits(p)
        &&& p.expr.folds_flat()
        &&& self.operators.tfold ==> p.is_tfold() && p.id == 2 && p.expr->next_id == 0
            && p.expr->accum_id == 1 && scoped(*p.expr->body, 2)
        &&& !self.operators.tfold ==> p.id == 0 && scoped(*p.expr, 1)
        &&& !self.operators.tfold && self.operators.bonus ==> *p.expr is If0
            && !p.expr.uses_fold()
        &&& !self.operators.tfold && self.operators.bonus && !self.loose_bonus ==> p.is_bonus()
    }

    /// Whether a program of the size `size` is made for certain.
    pub open spec fn sure_program(self, size: nat) -> bool {
        if self.operators.tfold {
            self.sure((size - 5) as nat, false)
        } else if self.operators.bonus {
            self.op1_len > 0
        } else {
            self.sure((size - 1) as nat, self.operators.fold)
        }
    }

    /// Whether a program of the size `size` can be asked for.
    pub fn can_generate(&self, size: usize) -> (ok: bool)
        requires
            self.wf(),
        ensures
            ok == self.accepts(size as nat),
    {
        if size > MAX_SIZE {
            return false;
        }
        if self.operators.tfold {
            size >= 6 && is_fillable(
                size - 5,
                self.op1_len > 0,
                self.op2_len > 0,
                self.operators.if0,
                false,
            )
        } else if self.operators.bonus {
            if self.loose_bonus {
                size >= 5 && self.operators.if0
            } else {
                size >= 13 && self.operators.if0 && BinOp::And.in_ops(&self.operators)
                    && self.op1_len > 0
            }
        } else {
            size >= 2 && is_fillable(
                size - 1,
                self.op1_len > 0,
                self.op2_len > 0,
                self.operators.if0,
                self.operators.fold,
            )
        }
    }

    /// A random program of the size `size` exactly, of the form that the
    /// operators fix: a fold at the top with `tfold`, an `if0` with `bonus`,
    /// else any expression, with a fold where the operators have one. It
    /// is the program that the random stream leads to by
    /// `Setup::program_from`. There is none where the generator comes to a
    /// size that it cannot fill; where `sure_program` holds there always
    /// is one.
    pub fn gen_program(&mut self, size: usize) -> (r: Option<Program>)
        requires
            old(self).wf(),
            old(self).accepts(size as nat),
        ensures
            final(self).wf(),
            final(self).same_setup(*old(self)),
            (r, final(self).rng) == old(self).setup().program_from(old(self).rng, size as nat),
            match r {
                Some(p) => old(self).makes(p, size as nat),
                None => !old(self).sure_program(size as nat),
            },
    {
        proof {
            lemma_enabled_op1(self.operators);
        }
        if self.operators.tfold {
            self.gen_tfold(size)
        } else if self.operators.bonus {
            let r = if self.loose_bonus {
                self.gen_bonus2(size)
            } else {
                self.gen_bonus(size)
            };
            proof {
                if r is Some {
                    lemma_scoped_closed_top(*r->0.expr);
                    assert(old(self).operators == (OperatorSet {
                        if0: true,
                        ..old(self).operators
                    }));
                }
            }
            r
        } else {
            let foldable = self.operators.fold;
            match self.gen_expr(size - 1, 1, foldable) {
                Some(e) => {
                    proof {
                        lemma_scoped_closed_top(e);
                    }
                    Some(Program::new(0, Box::new(e)))
                },
                None => None,
            }
        }
    }

    /// A random program `lambda(x) -> fold x 0 lambda(y, a) -> body` of the
    /// size `size`, with no fold in `body`.
    pub fn gen_tfold(&mut self, size: usize) -> (r: Option<Program>)
        requires
            old(self).wf(),
            6 <= size <= MAX_SIZE,
            old(self).setup().askable((size - 5) as nat, false),
        ensures
            final(self).wf(),
            final(self).same_setup(*old(self)),
            (r, final(self).rng) == old(self).setup().tfold_from(old(self).rng, size as nat),
            match r {
                Some(p) => {
                    &&& p.size() == size
                    &&& p.wf()
                    &&& p.is_tfold()
                    &&& p.id == 2
                    &&& p.expr->next_id == 0
                    &&& p.expr->accum_id == 1
                    &&& old(self).yields(*p.expr->body, (size - 5) as nat, 2, false)
                },
                None => !old(self).sure((size - 5) as nat, false),
            },
    {
        // the program, the fold, its argument and its zero take 5
        let body = match self.gen_expr(size - 1 - 2 - 1 - 1, 2, false) {
            Some(e) => e,
            None => { return None; },
        };
        proof {
            lemma_scoped_closed(body, 2, set![2usize].insert(0usize).insert(1usize));
            assert(Expr::Ident(2).size() == 1 && Expr::Zero.size() == 1);
            assert(Expr::Ident(2).closed(set![2usize]) && Expr::Zero.closed(set![2usize]));
        }
        // the argument is 2: the body never refers to it
        Some(
            Program::new(
                2,
                Box::new(
                    Expr::Fold {
                        foldee: Box::new(Expr::Ident(2)),
                        init: Box::new(Expr::Zero),
                        next_id: 0,
                        accum_id: 1,
                        body: Box::new(body),
                    },
                ),
            ),
        )
    }

    /// An arm of a bonus program: a binary operator over two expressions, or
    /// a unary operator over one, as a coin says.
    fn gen_arm(&mut self, size: usize) -> (e: Expr)
        requires
            old(self).wf(),
            3 <= size <= MAX_SIZE,
            old(self).op1_len > 0,
            old(self).op2_len > 0,
        ensures
            final(self).wf(),
            final(self).same_setup(*old(self)),
            (e, final(self).rng) == old(self).setup().arm_from(old(self).rng, size as nat),
            old(self).yields(e, size as nat, 1, false),
    {
        proof {
            lemma_enabled_op1(self.operators);
            lemma_enabled_op2(self.operators);
        }
        if self.rng.gen_bool() {
            // leave room for the operator and for the second argument
            let arg1_size = self.gen_size(size - 2, false);
            let arg2_size = size - 1 - arg1_size;
            let op = self.choose_op2();
            let arg1 = self.gen_expr(arg1_size, 1, false);
            let arg2 = self.gen_expr(arg2_size, 1, false);
            let e = Expr::Op2(op, Box::new(arg1.unwrap()), Box::new(arg2.unwrap()));
            proof {
                lemma_covers(self.operators, e);
            }
            e
        } else {
            let op = self.choose_op1();
            let arg1 = self.gen_expr(size - 1, 1, false);
            let e = Expr::Op1(op, Box::new(arg1.unwrap()));
            proof {
                lemma_covers(self.operators, e);
            }
            e
        }
    }

    /// The condition of a bonus program: `and` of a binary operator over two
    /// expressions and of an atom. The binary operator with its arguments
    /// has a sampled size out of `space`, but 3 at least.
    fn gen_condition(&mut self, space: usize) -> (r: (Expr, usize))
        requires
            old(self).wf(),
            3 <= space <= MAX_SIZE - 2,
            old(self).op1_len > 0,
            old(self).operators.has_op2(BinOp::And),
        ensures
            final(self).wf(),
            final(self).same_setup(*old(self)),
            ((r.0, r.1 as nat), final(self).rng) == old(self).setup().condition_from(
                old(self).rng,
                space as nat,
            ),
            5 <= r.1 <= space + 2,
            old(self).yields(r.0, r.1 as nat, 1, false),
            match r.0 {
                Expr::Op2(op, l, r) => op == BinOp::And && *l is Op2 && r.size() == 1,
                _ => false,
            },
    {
        proof {
            lemma_enabled_op2(self.operators);
        }
        // the second argument of `and`
        let atomic = self.gen_expr(1, 1, false).unwrap();
        let mut partial_cond_s = self.gen_size(space, false);
        if partial_cond_s < 3 {
            partial_cond_s = 3;
        }
        let partial_cond_op = self.choose_op2();
        let pc_left_s = self.gen_size(partial_cond_s - 2, false);
        let pc_right_s = partial_cond_s - 1 - pc_left_s;
        let pc_left = self.gen_expr(pc_left_s, 1, false).unwrap();
        let pc_right = self.gen_expr(pc_right_s, 1, false).unwrap();
        let partial_cond = Expr::Op2(partial_cond_op, Box::new(pc_left), Box::new(pc_right));
        proof {
            lemma_covers(self.operators, partial_cond);
            assert(old(self).yields(partial_cond, partial_cond_s as nat, 1, false));
        }
        let cond = Expr::Op2(BinOp::And, Box::new(partial_cond), Box::new(atomic));
        proof {
            lemma_covers(self.operators, cond);
            assert(cond.size() == 1 + partial_cond.size() + atomic.size());
            assert(cond.uses_fold() == (partial_cond.uses_fold() || atomic.uses_fold()));
            assert(cond.folds_flat() == (partial_cond.folds_flat() && atomic.folds_flat()));
            assert(scoped(cond, 1) == (scoped(partial_cond, 1) && scoped(atomic, 1)));
        }
        (cond, partial_cond_s + 2)
    }

    /// The condition and the two arms of a bonus program of the size `size`.
    fn gen_bonus_parts(&mut self, size: usize) -> (r: (Expr, Expr, Expr))
        requires
            old(self).wf(),
            13 <= size <= MAX_SIZE,
            old(self).op1_len > 0,
            old(self).operators.has_op2(BinOp::And),
        ensures
            final(self).wf(),
            final(self).same_setup(*old(self)),
            (r, final(self).rng) == old(self).setup().bonus_parts(old(self).rng, size as nat),
            r.0.size() + r.1.size() + r.2.size() + 2 == size,
            r.1.size() >= 3,
            r.2.size() >= 3,
            match r.0 {
                Expr::Op2(op, l, r) => op == BinOp::And && *l is Op2 && r.size() == 1,
                _ => false,
            },
            old(self).yields(r.0, r.0.size(), 1, false),
            old(self).yields(r.1, r.1.size(), 1, false),
            old(self).yields(r.2, r.2.size(), 1, false),
    {
        proof {
            lemma_enabled_op2(self.operators);
        }
        // the program and the if
        let remaining = size - 1 - 1;
        // leave room for the two arms, 3 each at least, for `and` and the atom
        let (cond, cond_s) = self.gen_condition(remaining - 6 - 2);
        let arms_s = remaining - cond_s;
        let left_arm_s = self.rng.gen_range(3, arms_s - 2);
        let right_arm_s = arms_s - left_arm_s;
        let left_arm = self.gen_arm(left_arm_s);
        let right_arm = self.gen_arm(right_arm_s);
        (cond, left_arm, right_arm)
    }

    /// A random program
    /// `lambda(x) -> if0 (and (binop a b) atom) then else` of the size `size`:
    /// both arms have size 3 at least, and no other `if0` and no fold occurs.
    pub fn gen_bonus(&mut self, size: usize) -> (r: Option<Program>)
        requires
            old(self).wf(),
            13 <= size <= MAX_SIZE,
            old(self).op1_len > 0,
            old(self).operators.has_op2(BinOp::And),
        ensures
            final(self).wf(),
            final(self).same_setup(*old(self)),
            (r, final(self).rng) == old(self).setup().bonus_from(old(self).rng, size as nat),
            match r {
                Some(p) => {
                    &&& p.size() == size
                    &&& p.id == 0
                    &&& p.is_bonus()
                    &&& p.expr.folds_flat()
                    &&& scoped(*p.expr, 1)
                    &&& (OperatorSet { if0: true, ..old(self).operators }).covers(*p.expr)
                },
                None => false,
            },
    {
        // only one if0 occurs
        let if0 = self.operators.if0;
        self.operators.if0 = false;
        let ghost inner = *self;
        assert(inner.setup() == old(self).setup().without_if0());
        let (cond, left_arm, right_arm) = self.gen_bonus_parts(size);
        self.operators.if0 = if0;
        let expr = Expr::If0(Box::new(cond), Box::new(left_arm), Box::new(right_arm));
        proof {
            let ops = OperatorSet { if0: true, ..old(self).operators };
            assert(ops == (OperatorSet { if0: true, ..inner.operators }));
            lemma_covers_with_if0(inner.operators, cond);
            lemma_covers_with_if0(inner.operators, left_arm);
            lemma_covers_with_if0(inner.operators, right_arm);
            lemma_covers(ops, expr);
            lemma_covers(inner.operators, cond);
            lemma_covers(inner.operators, left_arm);
            lemma_covers(inner.operators, right_arm);
            assert(!cond.uses_if0() && !left_arm.uses_if0() && !right_arm.uses_if0()) by {
                reveal(OperatorSet::covers);
            }
        }
        Some(Program::new(0, Box::new(expr)))
    }

    /// A random program `lambda(x) -> if0 cond then else` of the size `size`
    /// over any three expressions without folds.
    #[verifier::rlimit(100)]
    #[verifier::spinoff_prover]
    pub fn gen_bonus2(&mut self, size: usize) -> (r: Option<Program>)
        requires
            old(self).wf(),
            5 <= size <= MAX_SIZE,
        ensures
            final(self).wf(),
            final(self).same_setup(*old(self)),
            (r, final(self).rng) == old(self).setup().loose_from(old(self).rng, size as nat),
            match r {
                Some(p) => {
                    &&& p.size() == size
                    &&& p.id == 0
                    &&& *p.expr is If0
                    &&& !p.expr.uses_fold()
                    &&& p.expr.folds_flat()
                    &&& scoped(*p.expr, 1)
                    &&& (OperatorSet { if0: true, ..old(self).operators }).covers(*p.expr)
                },
                None => old(self).op1_len == 0,
            },
    {
        // the program and the if
        let remaining = size - 1 - 1;
        // leave room for the two arms
        let cond_s = self.gen_size(remaining - 2, false);
        let rest = remaining - cond_s;
        let then_s = self.gen_size(rest - 1, false);
        let else_s = rest - then_s;
        proof {
            lemma_enabled_op1(self.operators);
        }
        if !self.can_ask(else_s, false) {
            return None;
        }

        let cond = match self.gen_expr(cond_s, 1, false) {
            Some(e) => e,
            None => { return None; },
        };
        let then = match self.gen_expr(then_s, 1, false) {
            Some(e) => e,
            None => { return None; },
        };
        let other = match self.gen_expr(else_s, 1, false) {
            Some(e) => e,
            None => { return None; },
        };
        let expr = Expr::If0(Box::new(cond), Box::new(then), Box::new(other));
        proof {
            let ops = OperatorSet { if0: true, ..old(self).operators };
            lemma_covers_with_if0(self.operators, cond);
            lemma_covers_with_if0(self.operators, then);
            lemma_covers_with_if0(self.operators, other);
            lemma_covers(ops, expr);
        }
        Some(Program::new(0, Box::new(expr)))
    }
}

} // verus!
