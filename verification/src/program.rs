//! The BV expression model: syntax tree, size, scoping and operator sets.

use crate::strings::str_eq;
use vstd::prelude::*;

verus! {

/// A bound variable, named by a small number.
pub type Id = usize;

/// The unary operators of BV.
#[derive(Clone, Copy, Debug, PartialEq, Eq, Structural)]
pub enum UnaOp {
    Not,
    Shl1,
    Shr1,
    Shr4,
    Shr16,
}

/// The binary operators of BV.
#[derive(Clone, Copy, Debug, PartialEq, Eq, Structural)]
pub enum BinOp {
    And,
    Or,
    Xor,
    Plus,
}

/// A BV expression.
#[derive(Debug, PartialEq, Eq)]
pub enum Expr {
    Zero,
    One,
    Ident(Id),
    If0(Box<Expr>, Box<Expr>, Box<Expr>),
    Op1(UnaOp, Box<Expr>),
    Op2(BinOp, Box<Expr>, Box<Expr>),
    Fold { foldee: Box<Expr>, init: Box<Expr>, next_id: Id, accum_id: Id, body: Box<Expr> },
}

/// A program `lambda(id) -> expr`.
#[derive(Debug, PartialEq, Eq)]
pub struct Program {
    pub id: Id,
    pub expr: Box<Expr>,
}

/// The operators a problem may use: one bit per unary operator in `op1`, one
/// bit per binary operator in `op2`, and a flag for each structural form.
#[derive(Clone, Copy, Debug, PartialEq, Eq)]
pub struct OperatorSet {
    pub op1: u8,
    pub op2: u8,
    pub if0: bool,
    pub fold: bool,
    pub tfold: bool,
    pub bonus: bool,
}

impl UnaOp {
    /// The bit that stands for this operator in `OperatorSet::op1`.
    pub open spec fn mask(self) -> u8 {
        match self {
            UnaOp::Not => 1,
            UnaOp::Shl1 => 2,
            UnaOp::Shr1 => 4,
            UnaOp::Shr4 => 8,
            UnaOp::Shr16 => 16,
        }
    }

    /// The bit that stands for this operator in `OperatorSet::op1`.
    #[verifier::when_used_as_spec(mask)]
    pub fn bit(self) -> (b: u8)
        ensures
            b == self.mask(),
    {
        match self {
            UnaOp::Not => 1,
            UnaOp::Shl1 => 2,
            UnaOp::Shr1 => 4,
            UnaOp::Shr4 => 8,
            UnaOp::Shr16 => 16,
        }
    }

    /// Whether `ops` permits this operator.
    pub fn in_ops(&self, ops: &OperatorSet) -> (b: bool)
        ensures
            b == ops.has_op1(*self),
    {
        ops.op1 & self.bit() != 0
    }
}

impl BinOp {
    /// The bit that stands for this operator in `OperatorSet::op2`.
    pub open spec fn mask(self) -> u8 {
        match self {
            BinOp::And => 1,
            BinOp::Or => 2,
            BinOp::Xor => 4,
            BinOp::Plus => 8,
        }
    }

    /// The bit that stands for this operator in `OperatorSet::op2`.
    #[verifier::when_used_as_spec(mask)]
    pub fn bit(self) -> (b: u8)
        ensures
            b == self.mask(),
    {
        match self {
            BinOp::And => 1,
            BinOp::Or => 2,
            BinOp::Xor => 4,
            BinOp::Plus => 8,
        }
    }

    /// Whether `ops` permits this operator.
    pub fn in_ops(&self, ops: &OperatorSet) -> (b: bool)
        ensures
            b == ops.has_op2(*self),
    {
        ops.op2 & self.bit() != 0
    }
}

impl Clone for Expr {
    fn clone(&self) -> (res: Self)
        ensures
            res == *self,
        decreases self,
    {
        match self {
            Expr::Zero => Expr::Zero,
            Expr::One => Expr::One,
            Expr::Ident(id) => Expr::Ident(*id),
            Expr::If0(c, t, e) => Expr::If0(
                Box::new((&**c).clone()),
                Box::new((&**t).clone()),
                Box::new((&**e).clone()),
            ),
            Expr::Op1(op, e) => Expr::Op1(*op, Box::new((&**e).clone())),
            Expr::Op2(op, l, r) => Expr::Op2(
                *op,
                Box::new((&**l).clone()),
                Box::new((&**r).clone()),
            ),
            Expr::Fold { foldee, init, next_id, accum_id, body } => Expr::Fold {
                foldee: Box::new((&**foldee).clone()),
                init: Box::new((&**init).clone()),
                next_id: *next_id,
                accum_id: *accum_id,
                body: Box::new((&**body).clone()),
            },
        }
    }
}

impl Clone for Program {
    fn clone(&self) -> (res: Self)
        ensures
            res == *self,
    {
        Program { id: self.id, expr: Box::new((&*self.expr).clone()) }
    }
}

impl Expr {
    /// The size of the expression: one per node, two for a fold.
    pub open spec fn size(self) -> nat
        decreases self,
    {
        match self {
            Expr::Zero => 1,
            Expr::One => 1,
            Expr::Ident(_) => 1,
            Expr::If0(c, t, e) => 1 + c.size() + t.size() + e.size(),
            Expr::Op1(_, e) => 1 + e.size(),
            Expr::Op2(_, l, r) => 1 + l.size() + r.size(),
            Expr::Fold { foldee, init, body, .. } => 2 + foldee.size() + init.size() + body.size(),
        }
    }

    /// Whether every identifier is bound: it is in `bound`, or it is one of
    /// the two names of a fold whose body it stands in.
    pub open spec fn closed(self, bound: Set<Id>) -> bool
        decreases self,
    {
        match self {
            Expr::Zero => true,
            Expr::One => true,
            Expr::Ident(id) => bound.contains(id),
            Expr::If0(c, t, e) => c.closed(bound) && t.closed(bound) && e.closed(bound),
            Expr::Op1(_, e) => e.closed(bound),
            Expr::Op2(_, l, r) => l.closed(bound) && r.closed(bound),
            Expr::Fold { foldee, init, next_id, accum_id, body } => {
                &&& foldee.closed(bound)
                &&& init.closed(bound)
                &&& body.closed(bound.insert(next_id).insert(accum_id))
            },
        }
    }

    /// The bits of the unary operators that occur in the expression.
    pub open spec fn op1_mask(self) -> u8
        decreases self,
    {
        match self {
            Expr::Zero => 0,
            Expr::One => 0,
            Expr::Ident(_) => 0,
            Expr::If0(c, t, e) => c.op1_mask() | t.op1_mask() | e.op1_mask(),
            Expr::Op1(o, e) => o.mask() | e.op1_mask(),
            Expr::Op2(_, l, r) => l.op1_mask() | r.op1_mask(),
            Expr::Fold { foldee, init, body, .. } => foldee.op1_mask() | init.op1_mask()
                | body.op1_mask(),
        }
    }

    /// The bits of the binary operators that occur in the expression.
    pub open spec fn op2_mask(self) -> u8
        decreases self,
    {
        match self {
            Expr::Zero => 0,
            Expr::One => 0,
            Expr::Ident(_) => 0,
            Expr::If0(c, t, e) => c.op2_mask() | t.op2_mask() | e.op2_mask(),
            Expr::Op1(_, e) => e.op2_mask(),
            Expr::Op2(o, l, r) => o.mask() | l.op2_mask() | r.op2_mask(),
            Expr::Fold { foldee, init, body, .. } => foldee.op2_mask() | init.op2_mask()
                | body.op2_mask(),
        }
    }

    /// Whether the unary operator `op` occurs in the expression.
    pub open spec fn uses_op1(self, op: UnaOp) -> bool {
        self.op1_mask() & op.mask() != 0
    }

    /// Whether the binary operator `op` occurs in the expression.
    pub open spec fn uses_op2(self, op: BinOp) -> bool {
        self.op2_mask() & op.mask() != 0
    }

    /// Whether an `if0` occurs in the expression.
    pub open spec fn uses_if0(self) -> bool
        decreases self,
    {
        match self {
            Expr::Zero => false,
            Expr::One => false,
            Expr::Ident(_) => false,
            Expr::If0(_, _, _) => true,
            Expr::Op1(_, e) => e.uses_if0(),
            Expr::Op2(_, l, r) => l.uses_if0() || r.uses_if0(),
            Expr::Fold { foldee, init, body, .. } => foldee.uses_if0() || init.uses_if0()
                || body.uses_if0(),
        }
    }

    /// Whether a fold occurs in the expression.
    pub open spec fn uses_fold(self) -> bool
        decreases self,
    {
        match self {
            Expr::Zero => false,
            Expr::One => false,
            Expr::Ident(_) => false,
            Expr::If0(c, t, e) => c.uses_fold() || t.uses_fold() || e.uses_fold(),
            Expr::Op1(_, e) => e.uses_fold(),
            Expr::Op2(_, l, r) => l.uses_fold() || r.uses_fold(),
            Expr::Fold { .. } => true,
        }
    }

    /// Whether no fold stands inside another fold.
    pub open spec fn folds_flat(self) -> bool
        decreases self,
    {
        match self {
            Expr::Zero => true,
            Expr::One => true,
            Expr::Ident(_) => true,
            Expr::If0(c, t, e) => c.folds_flat() && t.folds_flat() && e.folds_flat(),
            Expr::Op1(_, e) => e.folds_flat(),
            Expr::Op2(_, l, r) => l.folds_flat() && r.folds_flat(),
            Expr::Fold { foldee, init, body, .. } => !foldee.uses_fold() && !init.uses_fold()
                && !body.uses_fold(),
        }
    }

    /// The size of the expression.
    pub fn len(&self) -> (n: u8)
        requires
            self.size() <= u8::MAX,
        ensures
            n == self.size(),
        decreases self,
    {
        match self {
            Expr::Zero => 1,
            Expr::One => 1,
            Expr::Ident(_) => 1,
            Expr::If0(c, t, e) => 1 + c.len() + t.len() + e.len(),
            Expr::Op1(_, e) => 1 + e.len(),
            Expr::Op2(_, l, r) => 1 + l.len() + r.len(),
            Expr::Fold { foldee, init, body, .. } => 2 + foldee.len() + init.len() + body.len(),
        }
    }

    /// The size of the expression, where it is at most `limit`.
    pub fn len_within(&self, limit: u8) -> (n: Option<u8>)
        ensures
            n == (if self.size() <= limit {
                Some(self.size() as u8)
            } else {
                None
            }),
        decreases self,
    {
        match self {
            Expr::Zero | Expr::One | Expr::Ident(_) => if limit >= 1 {
                Some(1)
            } else {
                None
            },
            Expr::If0(c, t, e) => {
                proof {
                    lemma_size_positive(**c);
                    lemma_size_positive(**t);
                    lemma_size_positive(**e);
                }
                if limit < 4 {
                    return None;
                }
                let a = match c.len_within(limit - 3) {
                    Some(a) => a,
                    None => { return None; },
                };
                let b = match t.len_within(limit - 2 - a) {
                    Some(b) => b,
                    None => { return None; },
                };
                match e.len_within(limit - 1 - a - b) {
                    Some(d) => Some(1 + a + b + d),
                    None => None,
                }
            },
            Expr::Op1(_, e) => {
                proof {
                    lemma_size_positive(**e);
                }
                if limit < 2 {
                    return None;
                }
                match e.len_within(limit - 1) {
                    Some(a) => Some(1 + a),
                    None => None,
                }
            },
            Expr::Op2(_, l, r) => {
                proof {
                    lemma_size_positive(**l);
                    lemma_size_positive(**r);
                }
                if limit < 3 {
                    return None;
                }
                let a = match l.len_within(limit - 2) {
                    Some(a) => a,
                    None => { return None; },
                };
                match r.len_within(limit - 1 - a) {
                    Some(b) => Some(1 + a + b),
                    None => None,
                }
            },
            Expr::Fold { foldee, init, body, .. } => {
                proof {
                    lemma_size_positive(**foldee);
                    lemma_size_positive(**init);
                    lemma_size_positive(**body);
                }
                if limit < 5 {
                    return None;
                }
                let a = match foldee.len_within(limit - 4) {
                    Some(a) => a,
                    None => { return None; },
                };
                let b = match init.len_within(limit - 3 - a) {
                    Some(b) => b,
                    None => { return None; },
                };
                match body.len_within(limit - 2 - a - b) {
                    Some(d) => Some(2 + a + b + d),
                    None => None,
                }
            },
        }
    }
}

/// Every expression has at least one node.
pub proof fn lemma_size_positive(e: Expr)
    ensures
        e.size() >= 1,
    decreases e,
{
    match e {
        Expr::If0(c, t, f) => {
            lemma_size_positive(*c);
            lemma_size_positive(*t);
            lemma_size_positive(*f);
        },
        Expr::Op1(_, a) => {
            lemma_size_positive(*a);
        },
        Expr::Op2(_, l, r) => {
            lemma_size_positive(*l);
            lemma_size_positive(*r);
        },
        Expr::Fold { foldee, init, body, .. } => {
            lemma_size_positive(*foldee);
            lemma_size_positive(*init);
            lemma_size_positive(*body);
        },
        _ => {},
    }
}

impl Program {
    /// The program `lambda(id) -> expr`.
    pub fn new(id: Id, expr: Box<Expr>) -> (p: Program)
        ensures
            p.id == id,
            p.expr == expr,
    {
        Program { id, expr }
    }

    /// The size of the program: one more than that of its body.
    pub open spec fn size(self) -> nat {
        1 + self.expr.size()
    }

    /// Whether the body refers to nothing but the argument and what its folds bind.
    pub open spec fn wf(self) -> bool {
        self.expr.closed(set![self.id])
    }

    /// Whether the body is a fold over some identifier, from zero.
    pub open spec fn folds_ident(self) -> bool {
        match *self.expr {
            Expr::Fold { foldee, init, .. } => *foldee is Ident && *init is Zero,
            _ => false,
        }
    }

    /// Whether the program is `lambda(x) -> fold x 0 lambda(y, a) -> body`
    /// with no fold in `body`.
    pub open spec fn is_tfold(self) -> bool {
        match *self.expr {
            Expr::Fold { foldee, init, body, .. } => {
                &&& *foldee == Expr::Ident(self.id)
                &&& *init == Expr::Zero
                &&& !body.uses_fold()
            },
            _ => false,
        }
    }

    /// Whether the program is
    /// `lambda(x) -> if0 (and (binop a b) atom) then else`, with both arms of
    /// size 3 at least, and with no fold and no other `if0`.
    pub open spec fn is_bonus(self) -> bool {
        match *self.expr {
            Expr::If0(c, t, e) => {
                &&& match *c {
                    Expr::Op2(op, l, r) => op == BinOp::And && *l is Op2 && r.size() == 1,
                    _ => false,
                }
                &&& t.size() >= 3
                &&& e.size() >= 3
                &&& !c.uses_if0() && !t.uses_if0() && !e.uses_if0()
                &&& !self.expr.uses_fold()
            },
            _ => false,
        }
    }

    /// The size of the program.
    pub fn len(&self) -> (n: u8)
        requires
            self.size() <= u8::MAX,
        ensures
            n == self.size(),
    {
        1 + self.expr.len()
    }

    /// The size of the program, where it is at most `limit`.
    pub fn len_within(&self, limit: u8) -> (n: Option<u8>)
        ensures
            n == (if self.size() <= limit {
                Some(self.size() as u8)
            } else {
                None
            }),
    {
        if limit < 2 {
            proof {
                lemma_size_positive(*self.expr);
            }
            return None;
        }
        match self.expr.len_within(limit - 1) {
            Some(n) => Some(1 + n),
            None => None,
        }
    }

    /// The operators that the program uses.
    pub fn operators(&self) -> (ops: OperatorSet)
        ensures
            ops == OperatorSet::empty().with_program(*self),
    {
        let mut operators = OperatorSet::new();
        operators.add_from_program(self);
        operators
    }
}

impl OperatorSet {
    /// The set without any operator.
    pub open spec fn empty() -> OperatorSet {
        OperatorSet { op1: 0, op2: 0, if0: false, fold: false, tfold: false, bonus: false }
    }

    /// Whether the unary operator `op` is in the set.
    pub open spec fn has_op1(self, op: UnaOp) -> bool {
        self.op1 & op.mask() != 0
    }

    /// Whether the binary operator `op` is in the set.
    pub open spec fn has_op2(self, op: BinOp) -> bool {
        self.op2 & op.mask() != 0
    }

    /// Whether every unary and binary operator that occurs in `e` is in the
    /// set, and `if0` where one occurs.
    #[verifier::opaque]
    pub open spec fn covers(self, e: Expr) -> bool {
        &&& forall|op: UnaOp| e.uses_op1(op) ==> self.has_op1(op)
        &&& forall|op: BinOp| e.uses_op2(op) ==> self.has_op2(op)
        &&& e.uses_if0() ==> self.if0
    }

    /// Whether every operator that occurs in `e` is in the set.
    pub open spec fn allows(self, e: Expr) -> bool {
        &&& self.covers(e)
        &&& e.uses_fold() ==> self.fold
    }

    /// Whether `p` is a program that the set permits. With `tfold`, the
    /// program has the fold at its top, which then needs no flag, and none below.
    pub open spec fn admits(self, p: Program) -> bool {
        if self.tfold {
            &&& p.is_tfold()
            &&& self.covers(*p.expr->body)
        } else {
            self.allows(*p.expr)
        }
    }

    /// The set with the operators of `e` added.
    pub open spec fn with_expr(self, e: Expr) -> OperatorSet {
        OperatorSet {
            op1: self.op1 | e.op1_mask(),
            op2: self.op2 | e.op2_mask(),
            if0: self.if0 || e.uses_if0(),
            fold: self.fold || e.uses_fold(),
            tfold: self.tfold,
            bonus: self.bonus,
        }
    }

    /// The set with the operator named `name` added; unchanged where `name`
    /// names none.
    pub open spec fn with_name(self, name: Seq<char>) -> OperatorSet {
        if name == "not"@ {
            OperatorSet { op1: self.op1 | 1, ..self }
        } else if name == "shl1"@ {
            OperatorSet { op1: self.op1 | 2, ..self }
        } else if name == "shr1"@ {
            OperatorSet { op1: self.op1 | 4, ..self }
        } else if name == "shr4"@ {
            OperatorSet { op1: self.op1 | 8, ..self }
        } else if name == "shr16"@ {
            OperatorSet { op1: self.op1 | 16, ..self }
        } else if name == "and"@ {
            OperatorSet { op2: self.op2 | 1, ..self }
        } else if name == "or"@ {
            OperatorSet { op2: self.op2 | 2, ..self }
        } else if name == "xor"@ {
            OperatorSet { op2: self.op2 | 4, ..self }
        } else if name == "plus"@ {
            OperatorSet { op2: self.op2 | 8, ..self }
        } else if name == "if0"@ {
            OperatorSet { if0: true, ..self }
        } else if name == "fold"@ {
            OperatorSet { fold: true, ..self }
        } else if name == "tfold"@ {
            OperatorSet { tfold: true, ..self }
        } else if name == "bonus"@ {
            OperatorSet { bonus: true, ..self }
        } else {
            self
        }
    }

    /// The set with the operators named in `names` added, one after the other.
    pub open spec fn with_names(self, names: Seq<Seq<char>>) -> OperatorSet
        decreases names.len(),
    {
        if names.len() == 0 {
            self
        } else {
            self.with_names(names.drop_last()).with_name(names.last())
        }
    }

    /// The set with the operators of `p` added: `tfold` and those of the
    /// fold's body where the body of `p` is a fold over an identifier from
    /// zero, else those of the whole body.
    pub open spec fn with_program(self, p: Program) -> OperatorSet {
        if p.folds_ident() {
            (OperatorSet { tfold: true, ..self }).with_expr(*p.expr->body)
        } else {
            self.with_expr(*p.expr)
        }
    }

    /// The set without any operator.
    pub fn new() -> (ops: OperatorSet)
        ensures
            ops == OperatorSet::empty(),
    {
        OperatorSet { op1: 0, op2: 0, if0: false, fold: false, tfold: false, bonus: false }
    }

    /// Adds the operator that `name` names. Returns whether it names one.
    pub fn add_name(&mut self, name: &str) -> (known: bool)
        ensures
            *final(self) == old(self).with_name(name@),
            known == is_operator_name(name@),
    {
        if str_eq(name, "not") {
            self.op1 = self.op1 | 1;
        } else if str_eq(name, "shl1") {
            self.op1 = self.op1 | 2;
        } else if str_eq(name, "shr1") {
            self.op1 = self.op1 | 4;
        } else if str_eq(name, "shr4") {
            self.op1 = self.op1 | 8;
        } else if str_eq(name, "shr16") {
            self.op1 = self.op1 | 16;
        } else if str_eq(name, "and") {
            self.op2 = self.op2 | 1;
        } else if str_eq(name, "or") {
            self.op2 = self.op2 | 2;
        } else if str_eq(name, "xor") {
            self.op2 = self.op2 | 4;
        } else if str_eq(name, "plus") {
            self.op2 = self.op2 | 8;
        } else if str_eq(name, "if0") {
            self.if0 = true;
        } else if str_eq(name, "fold") {
            self.fold = true;
        } else if str_eq(name, "tfold") {
            self.tfold = true;
        } else if str_eq(name, "bonus") {
            self.bonus = true;
        } else {
            return false;
        }
        true
    }

    /// Adds the operators that `ops` names.
    pub fn add(&mut self, ops: Vec<String>)
        requires
            forall|i: int| 0 <= i < ops@.len() ==> is_operator_name(#[trigger] ops@[i]@),
        ensures
            *final(self) == old(self).with_names(names_of(ops@)),
    {
        let mut i: usize = 0;
        while i < ops.len()
            invariant
                0 <= i <= ops@.len(),
                *self == old(self).with_names(names_of(ops@).take(i as int)),
            decreases ops@.len() - i,
        {
            let _ = self.add_name(ops[i].as_str());
            proof {
                let names = names_of(ops@);
                assert(names.take(i + 1).drop_last() == names.take(i as int));
                assert(names.take(i + 1).last() == ops@[i as int]@);
            }
            i = i + 1;
        }
        proof {
            let names = names_of(ops@);
            assert(names.take(i as int) == names);
        }
    }

    /// Adds the operators that occur in `e`.
    pub fn add_from_expr(&mut self, e: &Expr)
        ensures
            *final(self) == old(self).with_expr(*e),
        decreases e,
    {
        match e {
            Expr::Op1(op, sub_e) => {
                self.op1 = self.op1 | op.bit();
                self.add_from_expr(sub_e);
                proof {
                    lemma_or_assoc(old(self).op1, op.mask(), sub_e.op1_mask());
                }
            },
            Expr::Op2(op, lhs, rhs) => {
                self.op2 = self.op2 | op.bit();
                self.add_from_expr(lhs);
                self.add_from_expr(rhs);
                proof {
                    lemma_or_assoc(old(self).op1, lhs.op1_mask(), rhs.op1_mask());
                    lemma_or_assoc(old(self).op2, op.mask(), lhs.op2_mask());
                    lemma_or_assoc(old(self).op2, op.mask() | lhs.op2_mask(), rhs.op2_mask());
                }
            },
            Expr::If0(c, t, f) => {
                self.if0 = true;
                self.add_from_expr(c);
                self.add_from_expr(t);
                self.add_from_expr(f);
                proof {
                    lemma_or_assoc(old(self).op1, c.op1_mask(), t.op1_mask());
                    lemma_or_assoc(old(self).op1, c.op1_mask() | t.op1_mask(), f.op1_mask());
                    lemma_or_assoc(old(self).op2, c.op2_mask(), t.op2_mask());
                    lemma_or_assoc(old(self).op2, c.op2_mask() | t.op2_mask(), f.op2_mask());
                }
            },
            Expr::Fold { foldee, init, body, .. } => {
                self.fold = true;
                self.add_from_expr(foldee);
                self.add_from_expr(init);
                self.add_from_expr(body);
                proof {
                    let (a, b, c) = (foldee.op1_mask(), init.op1_mask(), body.op1_mask());
                    lemma_or_assoc(old(self).op1, a, b);
                    lemma_or_assoc(old(self).op1, a | b, c);
                    let (a, b, c) = (foldee.op2_mask(), init.op2_mask(), body.op2_mask());
                    lemma_or_assoc(old(self).op2, a, b);
                    lemma_or_assoc(old(self).op2, a | b, c);
                }
            },
            Expr::Ident(_) | Expr::One | Expr::Zero => {
                proof {
                    lemma_or_zero(old(self).op1);
                    lemma_or_zero(old(self).op2);
                }
            },
        }
    }

    /// Adds the operators that `p` uses: `tfold` and those of the fold's body
    /// where the body of `p` is a fold over an identifier from zero, else
    /// those of the whole body.
    pub fn add_from_program(&mut self, p: &Program)
        ensures
            *final(self) == old(self).with_program(*p),
    {
        match &*p.expr {
            Expr::Fold { foldee, init, body, .. } => {
                match (&**foldee, &**init) {
                    (Expr::Ident(_), Expr::Zero) => {
                        self.tfold = true;
                        self.add_from_expr(body);
                        return ;
                    },
                    _ => {},
                }
            },
            _ => {},
        }
        self.add_from_expr(&*p.expr)
    }
}

/// Whether `name` names an operator or a structural form.
pub open spec fn is_operator_name(name: Seq<char>) -> bool {
    ||| name == "not"@
    ||| name == "shl1"@
    ||| name == "shr1"@
    ||| name == "shr4"@
    ||| name == "shr16"@
    ||| name == "and"@
    ||| name == "or"@
    ||| name == "xor"@
    ||| name == "plus"@
    ||| name == "if0"@
    ||| name == "fold"@
    ||| name == "tfold"@
    ||| name == "bonus"@
}

/// The strings of `ops` as sequences of characters.
pub open spec fn names_of(ops: Seq<String>) -> Seq<Seq<char>> {
    Seq::new(ops.len(), |i: int| ops[i]@)
}

proof fn lemma_or_assoc(x: u8, y: u8, z: u8)
    by (bit_vector)
    ensures
        (x | y) | z == x | (y | z),
{
}

proof fn lemma_or_zero(x: u8)
    by (bit_vector)
    ensures
        x | 0 == x,
{
}

/// Two operators share a bit only where they are the same.
proof fn lemma_one_bit(a: u8, b: u8)
    by (bit_vector)
    requires
        a == 1 || a == 2 || a == 4 || a == 8 || a == 16,
        b == 1 || b == 2 || b == 4 || b == 8 || b == 16,
    ensures
        (a & b != 0) == (a == b),
        0u8 & b == 0,
{
}

/// Where the unary operator `o` occurs in `e`: at its top or in a child.
proof fn lemma_uses_op1(e: Expr, o: UnaOp)
    ensures
        match e {
            Expr::If0(c, t, f) => e.uses_op1(o) == (c.uses_op1(o) || t.uses_op1(o) || f.uses_op1(
                o,
            )),
            Expr::Op1(op, a) => e.uses_op1(o) == (op == o || a.uses_op1(o)),
            Expr::Op2(_, l, r) => e.uses_op1(o) == (l.uses_op1(o) || r.uses_op1(o)),
            Expr::Fold { foldee, init, body, .. } => e.uses_op1(o) == (foldee.uses_op1(o)
                || init.uses_op1(o) || body.uses_op1(o)),
            _ => !e.uses_op1(o),
        },
{
    let m = o.mask();
    lemma_one_bit(m, m);
    match e {
        Expr::If0(c, t, f) => {
            lemma_or_bits(c.op1_mask() | t.op1_mask(), f.op1_mask(), m);
            lemma_or_bits(c.op1_mask(), t.op1_mask(), m);
        },
        Expr::Op1(op, a) => {
            lemma_or_bits(op.mask(), a.op1_mask(), m);
            lemma_one_bit(op.mask(), m);
        },
        Expr::Op2(_, l, r) => {
            lemma_or_bits(l.op1_mask(), r.op1_mask(), m);
        },
        Expr::Fold { foldee, init, body, .. } => {
            lemma_or_bits(foldee.op1_mask() | init.op1_mask(), body.op1_mask(), m);
            lemma_or_bits(foldee.op1_mask(), init.op1_mask(), m);
        },
        _ => {},
    }
}

/// Where the binary operator `o` occurs in `e`: at its top or in a child.
proof fn lemma_uses_op2(e: Expr, o: BinOp)
    ensures
        match e {
            Expr::If0(c, t, f) => e.uses_op2(o) == (c.uses_op2(o) || t.uses_op2(o) || f.uses_op2(
                o,
            )),
            Expr::Op1(_, a) => e.uses_op2(o) == a.uses_op2(o),
            Expr::Op2(op, l, r) => e.uses_op2(o) == (op == o || l.uses_op2(o) || r.uses_op2(o)),
            Expr::Fold { foldee, init, body, .. } => e.uses_op2(o) == (foldee.uses_op2(o)
                || init.uses_op2(o) || body.uses_op2(o)),
            _ => !e.uses_op2(o),
        },
{
    let m = o.mask();
    lemma_one_bit(m, m);
    match e {
        Expr::If0(c, t, f) => {
            lemma_or_bits(c.op2_mask() | t.op2_mask(), f.op2_mask(), m);
            lemma_or_bits(c.op2_mask(), t.op2_mask(), m);
        },
        Expr::Op2(op, l, r) => {
            lemma_or_bits(op.mask() | l.op2_mask(), r.op2_mask(), m);
            lemma_or_bits(op.mask(), l.op2_mask(), m);
            lemma_one_bit(op.mask(), m);
        },
        Expr::Fold { foldee, init, body, .. } => {
            lemma_or_bits(foldee.op2_mask() | init.op2_mask(), body.op2_mask(), m);
            lemma_or_bits(foldee.op2_mask(), init.op2_mask(), m);
        },
        _ => {},
    }
}

/// A set covers an expression where it covers the children and holds the
/// operator at the top.
pub proof fn lemma_covers(ops: OperatorSet, e: Expr)
    ensures
        match e {
            Expr::If0(c, t, f) => ops.covers(e) == (ops.if0 && ops.covers(*c) && ops.covers(*t)
                && ops.covers(*f)),
            Expr::Op1(op, a) => ops.covers(e) == (ops.has_op1(op) && ops.covers(*a)),
            Expr::Op2(op, l, r) => ops.covers(e) == (ops.has_op2(op) && ops.covers(*l)
                && ops.covers(*r)),
            Expr::Fold { foldee, init, body, .. } => ops.covers(e) == (ops.covers(*foldee)
                && ops.covers(*init) && ops.covers(*body)),
            _ => ops.covers(e),
        },
{
    reveal(OperatorSet::covers);
    assert forall|o: UnaOp| true implies match e {
        Expr::If0(c, t, f) => #[trigger] e.uses_op1(o) == (c.uses_op1(o) || t.uses_op1(o)
            || f.uses_op1(o)),
        Expr::Op1(op, a) => e.uses_op1(o) == (op == o || a.uses_op1(o)),
        Expr::Op2(_, l, r) => e.uses_op1(o) == (l.uses_op1(o) || r.uses_op1(o)),
        Expr::Fold { foldee, init, body, .. } => e.uses_op1(o) == (foldee.uses_op1(o)
            || init.uses_op1(o) || body.uses_op1(o)),
        _ => !e.uses_op1(o),
    } by {
        lemma_uses_op1(e, o);
    }
    assert forall|o: BinOp| true implies match e {
        Expr::If0(c, t, f) => #[trigger] e.uses_op2(o) == (c.uses_op2(o) || t.uses_op2(o)
            || f.uses_op2(o)),
        Expr::Op1(_, a) => e.uses_op2(o) == a.uses_op2(o),
        Expr::Op2(op, l, r) => e.uses_op2(o) == (op == o || l.uses_op2(o) || r.uses_op2(o)),
        Expr::Fold { foldee, init, body, .. } => e.uses_op2(o) == (foldee.uses_op2(o)
            || init.uses_op2(o) || body.uses_op2(o)),
        _ => !e.uses_op2(o),
    } by {
        lemma_uses_op2(e, o);
    }
    match e {
        Expr::Op1(op, a) => {
            assert(e.uses_op1(op));
        },
        Expr::Op2(op, l, r) => {
            assert(e.uses_op2(op));
        },
        _ => {},
    }
}

/// A set that covers an expression covers it with `if0` added.
pub proof fn lemma_covers_with_if0(ops: OperatorSet, e: Expr)
    requires
        ops.covers(e),
    ensures
        (OperatorSet { if0: true, ..ops }).covers(e),
{
    reveal(OperatorSet::covers);
    let more = OperatorSet { if0: true, ..ops };
    assert(forall|o: UnaOp| more.has_op1(o) == ops.has_op1(o));
    assert(forall|o: BinOp| more.has_op2(o) == ops.has_op2(o));
}

/// A bit is in the union of two masks where it is in one of them.
proof fn lemma_or_bits(x: u8, y: u8, c: u8)
    by (bit_vector)
    ensures
        ((x | y) & c != 0) == (x & c != 0 || y & c != 0),
{
}

} // verus!
