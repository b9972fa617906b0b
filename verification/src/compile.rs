//! Programs with their identifiers resolved to places on a stack, for
//! running them without looking names up.

use crate::eval::{
    apply_op1, apply_op2, eval_expr, eval_fold, fold_byte, lemma_fold_byte, Eval, ROUNDS,
};
use crate::program::{BinOp, Expr, Id, Program, UnaOp};
use vstd::prelude::*;

verus! {

/// An expression whose identifiers are places on the stack of values:
/// the argument lies at the bottom, the two names of a fold on top of
/// what lies there when the fold is reached.
#[derive(Debug, PartialEq, Eq)]
pub enum Code {
    Zero,
    One,
    Slot(usize),
    If0(Box<Code>, Box<Code>, Box<Code>),
    Op1(UnaOp, Box<Code>),
    Op2(BinOp, Box<Code>, Box<Code>),
    Fold { foldee: Box<Code>, init: Box<Code>, body: Box<Code> },
}

impl Code {
    /// Whether every place lies on a stack of the height `depth`.
    pub open spec fn fits(self, depth: nat) -> bool
        decreases self,
    {
        match self {
            Code::Zero => true,
            Code::One => true,
            Code::Slot(k) => k < depth,
            Code::If0(c, t, e) => c.fits(depth) && t.fits(depth) && e.fits(depth),
            Code::Op1(_, e) => e.fits(depth),
            Code::Op2(_, l, r) => l.fits(depth) && r.fits(depth),
            Code::Fold { foldee, init, body } => foldee.fits(depth) && init.fits(depth)
                && body.fits(depth + 2),
        }
    }

    /// The value of the code on the stack `stack`.
    pub open spec fn run(self, stack: Seq<u64>) -> u64
        decreases self, 0nat,
    {
        match self {
            Code::Zero => 0,
            Code::One => 1,
            Code::Slot(k) => stack[k as int],
            Code::If0(c, t, e) => if c.run(stack) == 0 {
                t.run(stack)
            } else {
                e.run(stack)
            },
            Code::Op1(op, e) => apply_op1(op, e.run(stack)),
            Code::Op2(op, l, r) => apply_op2(op, l.run(stack), r.run(stack)),
            Code::Fold { foldee, init, body } => body.run_fold(
                stack,
                foldee.run(stack),
                init.run(stack),
                0,
            ),
        }
    }

    /// The accumulator at the end of a fold with this body that stands
    /// before its round `round` with the accumulator `accum`: each round
    /// puts its byte of `foldee` and the accumulator on the stack and runs
    /// the body there.
    pub open spec fn run_fold(self, stack: Seq<u64>, foldee: u64, accum: u64, round: nat) -> u64
        decreases self, ROUNDS - round + 1,
    {
        if round >= ROUNDS {
            accum
        } else {
            self.run_fold(
                stack,
                foldee,
                self.run(stack.push(fold_byte(foldee, round)).push(accum)),
                round + 1,
            )
        }
    }

    /// The value of the code on `stack`, which is left as it was.
    pub fn exec(&self, stack: &mut Vec<u64>) -> (v: u64)
        requires
            self.fits(old(stack)@.len()),
        ensures
            v == self.run(old(stack)@),
            final(stack)@ == old(stack)@,
        decreases self,
    {
        match self {
            Code::Zero => 0,
            Code::One => 1,
            Code::Slot(k) => stack[*k],
            Code::If0(cond, then, els) => {
                if cond.exec(stack) == 0 {
                    then.exec(stack)
                } else {
                    els.exec(stack)
                }
            },
            Code::Op1(op, e) => {
                let e = e.exec(stack);
                match op {
                    UnaOp::Not => !e,
                    UnaOp::Shl1 => e << 1,
                    UnaOp::Shr1 => e >> 1,
                    UnaOp::Shr4 => e >> 4,
                    UnaOp::Shr16 => e >> 16,
                }
            },
            Code::Op2(op, e1, e2) => {
                let e1 = e1.exec(stack);
                let e2 = e2.exec(stack);
                match op {
                    BinOp::And => e1 & e2,
                    BinOp::Or => e1 | e2,
                    BinOp::Xor => e1 ^ e2,
                    BinOp::Plus => e1.wrapping_add(e2),
                }
            },
            Code::Fold { foldee, init, body } => {
                let value = foldee.exec(stack);
                let mut rest = value;
                let mut accum = init.exec(stack);
                let ghost whole = body.run_fold(stack@, value, accum, 0);
                let mut round: u8 = 0;
                proof {
                    lemma_fold_byte(value, 0);
                }
                while round < ROUNDS
                    invariant
                        round <= ROUNDS,
                        *self is Fold,
                        self->body == *body,
                        stack@ == old(stack)@,
                        body.fits(stack@.len() + 2),
                        round < ROUNDS ==> rest == value >> ((8 * round) as u64),
                        whole == body.run_fold(stack@, value, accum, round as nat),
                    decreases ROUNDS - round,
                {
                    proof {
                        lemma_fold_byte(value, round as u64);
                    }
                    let b = rest & 0xff;
                    rest = rest >> 8;
                    stack.push(b);
                    stack.push(accum);
                    accum = body.exec(stack);
                    stack.pop();
                    stack.pop();
                    assert(stack@ =~= old(stack)@);
                    round = round + 1;
                }
                accum
            },
        }
    }
}

/// The environment in which the identifiers of `scope` have the values
/// of `stack`, place by place; a later place shadows an earlier one.
pub open spec fn env_of(scope: Seq<Id>, stack: Seq<u64>) -> Map<Id, u64>
    decreases scope.len(),
{
    if scope.len() == 0 {
        Map::empty()
    } else {
        env_of(scope.drop_last(), stack.drop_last()).insert(scope.last(), stack.last())
    }
}

/// The identifiers of `scope`.
pub open spec fn bound_in(scope: Seq<Id>) -> Set<Id> {
    Set::new(|id: Id| exists|k: int| 0 <= k < scope.len() && scope[k] == id)
}

/// Whether `code` is `e` with its identifiers resolved in `scope`: it
/// fits the stacks of that scope and has on each of them the value of `e`.
pub open spec fn faithful(code: Code, e: Expr, scope: Seq<Id>) -> bool {
    &&& code.fits(scope.len())
    &&& forall|stack: Seq<u64>|
        stack.len() == scope.len() ==> #[trigger] code.run(stack) == eval_expr(
            e,
            env_of(scope, stack),
        )
}

/// The environment of a scope binds the identifiers of the scope, each to
/// the value at the last of its places.
proof fn lemma_env_of(scope: Seq<Id>, stack: Seq<u64>, id: Id, k: int)
    requires
        stack.len() == scope.len(),
        0 <= k < scope.len(),
        scope[k] == id,
        forall|j: int| k < j < scope.len() ==> scope[j] != id,
    ensures
        env_of(scope, stack).dom().contains(id),
        env_of(scope, stack)[id] == stack[k],
    decreases scope.len(),
{
    if k < scope.len() - 1 {
        lemma_env_of(scope.drop_last(), stack.drop_last(), id, k);
    }
}

/// The environment of a scope binds nothing but the identifiers of the scope.
proof fn lemma_env_dom(scope: Seq<Id>, stack: Seq<u64>)
    requires
        stack.len() == scope.len(),
    ensures
        env_of(scope, stack).dom() == bound_in(scope),
    decreases scope.len(),
{
    if scope.len() > 0 {
        lemma_env_dom(scope.drop_last(), stack.drop_last());
        assert forall|id: Id| bound_in(scope).contains(id) == (bound_in(
            scope.drop_last(),
        ).contains(id) || id == scope.last()) by {
            if bound_in(scope).contains(id) {
                let k = choose|k: int| 0 <= k < scope.len() && scope[k] == id;
                if k < scope.len() - 1 {
                    assert(scope.drop_last()[k] == id);
                }
            }
            if bound_in(scope.drop_last()).contains(id) {
                let k = choose|k: int| 0 <= k < scope.drop_last().len() && scope.drop_last()[k] == id;
                assert(scope[k] == id);
            }
            if id == scope.last() {
                assert(scope[scope.len() - 1] == id);
            }
        }
    }
    assert(env_of(scope, stack).dom() =~= bound_in(scope));
}

/// Two values on top of a stack are two bindings in front of its environment.
proof fn lemma_env_push(scope: Seq<Id>, stack: Seq<u64>, next_id: Id, accum_id: Id, b: u64, a: u64)
    ensures
        env_of(scope.push(next_id).push(accum_id), stack.push(b).push(a)) == env_of(
            scope,
            stack,
        ).insert(next_id, b).insert(accum_id, a),
{
    let s1 = scope.push(next_id);
    let v1 = stack.push(b);
    let s2 = s1.push(accum_id);
    let v2 = v1.push(a);
    assert(s1.drop_last() =~= scope);
    assert(v1.drop_last() =~= stack);
    assert(env_of(s1, v1) == env_of(scope, stack).insert(next_id, b));
    assert(s2.drop_last() =~= s1);
    assert(v2.drop_last() =~= v1);
    assert(env_of(s2, v2) == env_of(s1, v1).insert(accum_id, a));
}

/// The rounds of a fold over faithful code give what the rounds of the fold give.
proof fn lemma_run_fold(
    code: Code,
    body: Expr,
    scope: Seq<Id>,
    next_id: Id,
    accum_id: Id,
    stack: Seq<u64>,
    foldee: u64,
    accum: u64,
    round: nat,
)
    requires
        faithful(code, body, scope.push(next_id).push(accum_id)),
        stack.len() == scope.len(),
    ensures
        code.run_fold(stack, foldee, accum, round) == eval_fold(
            body,
            next_id,
            accum_id,
            env_of(scope, stack),
            foldee,
            accum,
            round,
        ),
    decreases ROUNDS - round,
{
    if round < ROUNDS {
        let byte = fold_byte(foldee, round);
        let inner = stack.push(byte).push(accum);
        lemma_env_push(scope, stack, next_id, accum_id, byte, accum);
        assert(code.run(inner) == eval_expr(
            body,
            env_of(scope.push(next_id).push(accum_id), inner),
        ));
        lemma_run_fold(
            code,
            body,
            scope,
            next_id,
            accum_id,
            stack,
            foldee,
            code.run(inner),
            round + 1,
        );
    }
}

/// The last place of `id` in `scope`.
fn resolve(scope: &Vec<Id>, id: Id) -> (k: usize)
    requires
        bound_in(scope@).contains(id),
    ensures
        k < scope@.len(),
        scope@[k as int] == id,
        forall|j: int| k < j < scope@.len() ==> scope@[j] != id,
{
    let mut k: usize = scope.len();
    while k > 0
        invariant
            0 <= k <= scope@.len(),
            bound_in(scope@).contains(id),
            forall|j: int| k <= j < scope@.len() ==> scope@[j] != id,
        decreases k,
    {
        k = k - 1;
        if scope[k] == id {
            return k;
        }
    }
    proof {
        let j = choose|j: int| 0 <= j < scope@.len() && scope@[j] == id;
        assert(false);
    }
    0
}

/// The expression `expr` with its identifiers resolved in `scope`, which
/// is left as it was.
pub fn compile(expr: &Expr, scope: &mut Vec<Id>) -> (code: Box<Code>)
    requires
        expr.closed(bound_in(old(scope)@)),
    ensures
        final(scope)@ == old(scope)@,
        faithful(*code, *expr, old(scope)@),
    decreases expr,
{
    let ghost ids = scope@;
    match expr {
        Expr::Zero => {
            assert(faithful(Code::Zero, *expr, ids));
            Box::new(Code::Zero)
        },
        Expr::One => {
            assert(faithful(Code::One, *expr, ids));
            Box::new(Code::One)
        },
        Expr::Ident(id) => {
            let k = resolve(scope, *id);
            let code = Code::Slot(k);
            proof {
                assert forall|stack: Seq<u64>| stack.len() == ids.len() implies #[trigger] code.run(
                    stack,
                ) == eval_expr(*expr, env_of(ids, stack)) by {
                    lemma_env_of(ids, stack, *id, k as int);
                }
            }
            Box::new(code)
        },
        Expr::If0(cond, then, els) => {
            let cond_c = compile(cond, scope);
            let then_c = compile(then, scope);
            let els_c = compile(els, scope);
            let code = Code::If0(cond_c, then_c, els_c);
            proof {
                assert(code.fits(ids.len()));
                assert forall|stack: Seq<u64>| stack.len() == ids.len() implies #[trigger] code.run(
                    stack,
                ) == eval_expr(*expr, env_of(ids, stack)) by {
                    let env = env_of(ids, stack);
                    assert(cond_c.run(stack) == eval_expr(**cond, env));
                    assert(then_c.run(stack) == eval_expr(**then, env));
                    assert(els_c.run(stack) == eval_expr(**els, env));
                }
            }
            Box::new(code)
        },
        Expr::Op1(op, e) => {
            let e_c = compile(e, scope);
            let code = Code::Op1(*op, e_c);
            proof {
                assert(code.fits(ids.len()));
                assert forall|stack: Seq<u64>| stack.len() == ids.len() implies #[trigger] code.run(
                    stack,
                ) == eval_expr(*expr, env_of(ids, stack)) by {
                    assert(e_c.run(stack) == eval_expr(**e, env_of(ids, stack)));
                }
            }
            Box::new(code)
        },
        Expr::Op2(op, e1, e2) => {
            let e1_c = compile(e1, scope);
            let e2_c = compile(e2, scope);
            let code = Code::Op2(*op, e1_c, e2_c);
            proof {
                assert(code.fits(ids.len()));
                assert forall|stack: Seq<u64>| stack.len() == ids.len() implies #[trigger] code.run(
                    stack,
                ) == eval_expr(*expr, env_of(ids, stack)) by {
                    let env = env_of(ids, stack);
                    assert(e1_c.run(stack) == eval_expr(**e1, env));
                    assert(e2_c.run(stack) == eval_expr(**e2, env));
                }
            }
            Box::new(code)
        },
        Expr::Fold { foldee, init, next_id, accum_id, body } => {
            let foldee_c = compile(foldee, scope);
            let accum_c = compile(init, scope);
            scope.push(*next_id);
            scope.push(*accum_id);
            proof {
                let inner = ids.push(*next_id).push(*accum_id);
                assert(scope@ == inner);
                assert(bound_in(inner) =~= bound_in(ids).insert(*next_id).insert(*accum_id)) by {
                    assert forall|id: Id| bound_in(inner).contains(id) == (bound_in(ids).contains(
                        id,
                    ) || id == *next_id || id == *accum_id) by {
                        if bound_in(inner).contains(id) {
                            let k = choose|k: int| 0 <= k < inner.len() && inner[k] == id;
                            if k < ids.len() {
                                assert(ids[k] == id);
                            }
                        }
                        if bound_in(ids).contains(id) {
                            let k = choose|k: int| 0 <= k < ids.len() && ids[k] == id;
                            assert(inner[k] == id);
                        }
                        if id == *next_id {
                            assert(inner[ids.len() as int] == id);
                        }
                        if id == *accum_id {
                            assert(inner[ids.len() as int + 1] == id);
                        }
                    }
                }
            }
            let body_c = compile(body, scope);
            scope.pop();
            scope.pop();
            assert(scope@ =~= ids);
            let code = Code::Fold { foldee: foldee_c, init: accum_c, body: body_c };
            proof {
                assert(code.fits(ids.len()));
                assert forall|stack: Seq<u64>| stack.len() == ids.len() implies #[trigger] code.run(
                    stack,
                ) == eval_expr(*expr, env_of(ids, stack)) by {
                    let env = env_of(ids, stack);
                    assert(foldee_c.run(stack) == eval_expr(**foldee, env));
                    assert(accum_c.run(stack) == eval_expr(**init, env));
                    lemma_run_fold(
                        *body_c,
                        **body,
                        ids,
                        *next_id,
                        *accum_id,
                        stack,
                        foldee_c.run(stack),
                        accum_c.run(stack),
                        0,
                    );
                }
            }
            Box::new(code)
        },
    }
}

/// A program with its identifiers resolved.
#[derive(Debug, PartialEq, Eq)]
pub struct CompiledProgram {
    pub expr: Box<Code>,
}

/// The program `p` with its identifiers resolved: it gives on every input
/// what `p` gives.
pub fn compile_program(p: &Program) -> (c: CompiledProgram)
    requires
        p.wf(),
    ensures
        c.runnable(),
        forall|val: u64| #[trigger] c.output(val) == p.value(val),
{
    let mut scope: Vec<Id> = Vec::new();
    scope.push(p.id);
    proof {
        assert(bound_in(scope@) =~= set![p.id]) by {
            assert(scope@[0] == p.id);
        }
    }
    let expr = compile(&*p.expr, &mut scope);
    proof {
        assert forall|val: u64| #[trigger] expr.run(seq![val]) == p.value(val) by {
            let stack = seq![val];
            assert(scope@.drop_last() =~= Seq::<Id>::empty());
            assert(stack.drop_last() =~= Seq::<u64>::empty());
            assert(env_of(scope@.drop_last(), stack.drop_last()) == Map::<Id, u64>::empty());
            assert(env_of(scope@, stack) == Map::<Id, u64>::empty().insert(p.id, val));
        }
    }
    CompiledProgram { expr }
}

impl Eval for CompiledProgram {
    open spec fn runnable(&self) -> bool {
        self.expr.fits(1)
    }

    open spec fn output(&self, val: u64) -> u64 {
        self.expr.run(seq![val])
    }

    fn eval(&self, val: u64) -> (out: u64) {
        let mut stack: Vec<u64> = Vec::new();
        stack.push(val);
        assert(stack@ =~= seq![val]);
        self.expr.exec(&mut stack)
    }
}

} // verus!
