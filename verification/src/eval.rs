//! The meaning of BV programs, and the interpreter that computes it.

use crate::program::{BinOp, Expr, Id, Program, UnaOp};
use vstd::prelude::*;

verus! {

/// The value of a unary operator on `x`.
pub open spec fn apply_op1(op: UnaOp, x: u64) -> u64 {
    match op {
        UnaOp::Not => !x,
        UnaOp::Shl1 => x << 1,
        UnaOp::Shr1 => x >> 1,
        UnaOp::Shr4 => x >> 4,
        UnaOp::Shr16 => x >> 16,
    }
}

/// The value of a binary operator on `x` and `y`; addition wraps at 64 bits.
pub open spec fn apply_op2(op: BinOp, x: u64, y: u64) -> u64 {
    match op {
        BinOp::And => x & y,
        BinOp::Or => x | y,
        BinOp::Xor => x ^ y,
        BinOp::Plus => vstd::wrapping::u64_specs::wrapping_add(x, y),
    }
}

/// The value of `e` where `env` gives the values of its free identifiers.
pub open spec fn eval_expr(e: Expr, env: Map<Id, u64>) -> u64
    decreases e, 0nat,
{
    match e {
        Expr::Zero => 0,
        Expr::One => 1,
        Expr::Ident(id) => env[id],
        Expr::If0(c, t, f) => if eval_expr(*c, env) == 0 {
            eval_expr(*t, env)
        } else {
            eval_expr(*f, env)
        },
        Expr::Op1(op, a) => apply_op1(op, eval_expr(*a, env)),
        Expr::Op2(op, a, b) => apply_op2(op, eval_expr(*a, env), eval_expr(*b, env)),
        Expr::Fold { foldee, init, next_id, accum_id, body } => eval_fold(
            *body,
            next_id,
            accum_id,
            env,
            eval_expr(*foldee, env),
            eval_expr(*init, env),
            0,
        ),
    }
}

/// How many rounds a fold has: one for each byte of a 64-bit value.
pub const ROUNDS: u8 = 8;

/// The byte of `value` that the round `round` of a fold binds, the lowest
/// byte in round 0.
pub open spec fn fold_byte(value: u64, round: nat) -> u64 {
    (value >> ((8 * round) as u64)) & 0xff
}

/// The accumulator at the end of a fold that stands before its round
/// `round` with the accumulator `accum`: each round binds `next_id` to its
/// byte of `foldee` and `accum_id` to the accumulator, and takes the value
/// of `body` as the new accumulator.
pub open spec fn eval_fold(
    body: Expr,
    next_id: Id,
    accum_id: Id,
    env: Map<Id, u64>,
    foldee: u64,
    accum: u64,
    round: nat,
) -> u64
    decreases body, ROUNDS - round + 1,
{
    if round >= ROUNDS {
        accum
    } else {
        let inner = env.insert(next_id, fold_byte(foldee, round)).insert(accum_id, accum);
        eval_fold(body, next_id, accum_id, env, foldee, eval_expr(body, inner), round + 1)
    }
}

/// What is left of a value after `round` rounds, each of which shifted
/// the lowest byte out, holds the byte of the round at its low end.
pub proof fn lemma_fold_byte(value: u64, round: u64)
    by (bit_vector)
    requires
        round < 8,
    ensures
        (value >> (8 * round)) >> 8 == (if round < 7 {
            value >> (8 * (round + 1))
        } else {
            0
        }),
        value >> 0 == value,
{
}

impl Program {
    /// The value of the program on the input `val`.
    pub open spec fn value(self, val: u64) -> u64 {
        eval_expr(*self.expr, Map::empty().insert(self.id, val))
    }
}

/// One binding of an environment, linked to the bindings it shadows. The
/// frames live on the stack of the interpreter.
pub struct Scope<'a> {
    pub id: Id,
    pub val: u64,
    pub parent: Option<&'a Scope<'a>>,
}

impl<'a> Scope<'a> {
    /// The environment that the chain of frames stands for.
    pub open spec fn env(self) -> Map<Id, u64>
        decreases self,
    {
        match self.parent {
            None => Map::empty().insert(self.id, self.val),
            Some(p) => p.env().insert(self.id, self.val),
        }
    }

    /// A frame that binds `id` to `val` in front of this one.
    pub fn push(&'a self, id: Id, val: u64) -> (s: Scope<'a>)
        ensures
            s.env() == self.env().insert(id, val),
    {
        Scope { id, val, parent: Some(self) }
    }

    /// The value bound to `id`.
    pub fn lookup(&self, id: Id) -> (v: u64)
        requires
            self.env().dom().contains(id),
        ensures
            v == self.env()[id],
        decreases self,
    {
        if id == self.id {
            self.val
        } else {
            match self.parent {
                Some(p) => p.lookup(id),
                None => {
                    proof {
                        assert(false);
                    }
                    0
                },
            }
        }
    }

    /// Whether `id` is bound.
    pub fn binds(&self, id: Id) -> (b: bool)
        ensures
            b == self.env().dom().contains(id),
        decreases self,
    {
        if id == self.id {
            true
        } else {
            match self.parent {
                Some(p) => p.binds(id),
                None => false,
            }
        }
    }

    /// Whether every identifier of `expr` is bound: here, or by a fold
    /// whose body it stands in.
    pub fn closes(&self, expr: &Expr) -> (b: bool)
        ensures
            b == expr.closed(self.env().dom()),
        decreases expr,
    {
        match expr {
            Expr::Zero => true,
            Expr::One => true,
            Expr::Ident(id) => self.binds(*id),
            Expr::If0(cond, then, els) => self.closes(cond) && self.closes(then) && self.closes(
                els,
            ),
            Expr::Op1(_, e) => self.closes(e),
            Expr::Op2(_, e1, e2) => self.closes(e1) && self.closes(e2),
            Expr::Fold { foldee, init, next_id, accum_id, body } => {
                if !self.closes(foldee) || !self.closes(init) {
                    return false;
                }
                let scope = self.push(*next_id, 0);
                let scope = scope.push(*accum_id, 0);
                assert(scope.env().dom() =~= self.env().dom().insert(*next_id).insert(
                    *accum_id,
                ));
                scope.closes(body)
            },
        }
    }

    /// The value of `expr` in this environment.
    pub fn eval(&self, expr: &Expr) -> (v: u64)
        requires
            expr.closed(self.env().dom()),
        ensures
            v == eval_expr(*expr, self.env()),
        decreases expr,
    {
        match expr {
            Expr::Zero => 0,
            Expr::One => 1,
            Expr::Ident(id) => self.lookup(*id),
            Expr::If0(cond, then, els) => {
                if self.eval(cond) == 0 {
                    self.eval(then)
                } else {
                    self.eval(els)
                }
            },
            Expr::Op1(op, e) => {
                let e = self.eval(e);
                match op {
                    UnaOp::Not => !e,
                    UnaOp::Shl1 => e << 1,
                    UnaOp::Shr1 => e >> 1,
                    UnaOp::Shr4 => e >> 4,
                    UnaOp::Shr16 => e >> 16,
                }
            },
            Expr::Op2(op, e1, e2) => {
                let e1 = self.eval(e1);
                let e2 = self.eval(e2);
                match op {
                    BinOp::And => e1 & e2,
                    BinOp::Or => e1 | e2,
                    BinOp::Xor => e1 ^ e2,
                    BinOp::Plus => e1.wrapping_add(e2),
                }
            },
            Expr::Fold { foldee, init, next_id, accum_id, body } => {
                let value = self.eval(foldee);
                let mut rest = value;
                let mut accum = self.eval(init);
                let ghost whole = eval_fold(
                    **body,
                    *next_id,
                    *accum_id,
                    self.env(),
                    value,
                    accum,
                    0,
                );
                let mut round: u8 = 0;
                proof {
                    lemma_fold_byte(value, 0);
                }
                while round < ROUNDS
                    invariant
                        round <= ROUNDS,
                        *expr is Fold,
                        expr->body == *body,
                        body.closed(self.env().dom().insert(*next_id).insert(*accum_id)),
                        round < ROUNDS ==> rest == value >> ((8 * round) as u64),
                        whole == eval_fold(
                            **body,
                            *next_id,
                            *accum_id,
                            self.env(),
                            value,
                            accum,
                            round as nat,
                        ),
                    decreases ROUNDS - round,
                {
                    proof {
                        lemma_fold_byte(value, round as u64);
                    }
                    let b = rest & 0xff;
                    rest = rest >> 8;
                    let scope = self.push(*next_id, b);
                    let scope = scope.push(*accum_id, accum);
                    assert(scope.env().dom() =~= self.env().dom().insert(*next_id).insert(
                        *accum_id,
                    ));
                    accum = scope.eval(body);
                    round = round + 1;
                }
                accum
            },
        }
    }
}

/// What can be run on a 64-bit input.
pub trait Eval {
    /// Whether the value can be run: nothing in it is unbound.
    spec fn runnable(&self) -> bool;

    /// The output on the input `val`.
    spec fn output(&self, val: u64) -> u64;

    fn eval(&self, val: u64) -> (out: u64)
        requires
            self.runnable(),
        ensures
            out == self.output(val),
    ;
}

impl Program {
    /// Whether the body refers to nothing but the argument and what its folds bind.
    pub fn is_closed(&self) -> (b: bool)
        ensures
            b == self.wf(),
    {
        let scope = Scope { id: self.id, val: 0, parent: None };
        assert(scope.env().dom() =~= set![self.id]);
        scope.closes(&*self.expr)
    }
}

impl Eval for Program {
    open spec fn runnable(&self) -> bool {
        self.wf()
    }

    open spec fn output(&self, val: u64) -> u64 {
        self.value(val)
    }

    fn eval(&self, val: u64) -> (out: u64) {
        let scope = Scope { id: self.id, val, parent: None };
        assert(scope.env().dom() =~= set![self.id]);
        scope.eval(&*self.expr)
    }
}

} // verus!
