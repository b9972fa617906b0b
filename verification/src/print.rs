//! The textual form of BV programs.

use crate::program::{BinOp, Expr, Id, OperatorSet, Program, UnaOp};
use vstd::prelude::*;
use vstd::string::*;

verus! {

/// The letter of the alphabet with the number `d`, from `a` for 0.
pub open spec fn letter(d: nat) -> char {
    "abcdefghijklmnopqrstuvwxyz"@[d as int]
}

/// The name of the identifier `n`: its digits to the base 26, the lowest
/// first, each as a letter.
pub open spec fn id_text(n: nat) -> Seq<char>
    decreases n,
{
    if n < 26 {
        seq![letter(n)]
    } else {
        seq![letter(n % 26)] + id_text(n / 26)
    }
}

impl UnaOp {
    /// The name of the operator.
    pub open spec fn name(self) -> Seq<char> {
        match self {
            UnaOp::Not => "not"@,
            UnaOp::Shl1 => "shl1"@,
            UnaOp::Shr1 => "shr1"@,
            UnaOp::Shr4 => "shr4"@,
            UnaOp::Shr16 => "shr16"@,
        }
    }

    /// The name of the operator.
    pub fn as_str(&self) -> (s: &'static str)
        ensures
            s@ == self.name(),
    {
        match self {
            UnaOp::Not => "not",
            UnaOp::Shl1 => "shl1",
            UnaOp::Shr1 => "shr1",
            UnaOp::Shr4 => "shr4",
            UnaOp::Shr16 => "shr16",
        }
    }

    /// The name of the operator.
    pub fn to_str(&self) -> (s: String)
        ensures
            s@ == self.name(),
    {
        String::from_str(self.as_str())
    }
}

impl BinOp {
    /// The name of the operator.
    pub open spec fn name(self) -> Seq<char> {
        match self {
            BinOp::And => "and"@,
            BinOp::Or => "or"@,
            BinOp::Xor => "xor"@,
            BinOp::Plus => "plus"@,
        }
    }

    /// The name of the operator.
    pub fn as_str(&self) -> (s: &'static str)
        ensures
            s@ == self.name(),
    {
        match self {
            BinOp::And => "and",
            BinOp::Or => "or",
            BinOp::Xor => "xor",
            BinOp::Plus => "plus",
        }
    }

    /// The name of the operator.
    pub fn to_str(&self) -> (s: String)
        ensures
            s@ == self.name(),
    {
        String::from_str(self.as_str())
    }
}

impl Expr {
    /// The expression as text: constants and identifiers as they are, every
    /// other form in brackets with single spaces between its parts.
    pub open spec fn text(self) -> Seq<char>
        decreases self,
    {
        match self {
            Expr::Zero => "0"@,
            Expr::One => "1"@,
            Expr::Ident(id) => id_text(id as nat),
            Expr::If0(c, t, e) => "(if0 "@ + c.text() + " "@ + t.text() + " "@ + e.text() + ")"@,
            Expr::Op1(op, e) => "("@ + op.name() + " "@ + e.text() + ")"@,
            Expr::Op2(op, l, r) => "("@ + op.name() + " "@ + l.text() + " "@ + r.text() + ")"@,
            Expr::Fold { foldee, init, next_id, accum_id, body } => "(fold "@ + foldee.text() + " "@
                + init.text() + " (lambda ("@ + id_text(next_id as nat) + " "@ + id_text(
                accum_id as nat,
            ) + ") "@ + body.text() + "))"@,
        }
    }

    /// Writes the expression at the end of `out`.
    pub fn write_to(&self, out: &mut String)
        ensures
            final(out)@ == old(out)@ + self.text(),
        decreases self,
    {
        let ghost start = out@;
        match self {
            Expr::Zero => out.append("0"),
            Expr::One => out.append("1"),
            Expr::Ident(id) => write_id(*id, out),
            Expr::If0(test, then, other) => {
                out.append("(if0 ");
                let ghost t = "(if0 "@;
                test.write_to(out);
                proof {
                    lemma_assoc(start, t, test.text());
                }
                let ghost t = t + test.text();
                out.append(" ");
                proof {
                    lemma_assoc(start, t, " "@);
                }
                let ghost t = t + " "@;
                then.write_to(out);
                proof {
                    lemma_assoc(start, t, then.text());
                }
                let ghost t = t + then.text();
                out.append(" ");
                proof {
                    lemma_assoc(start, t, " "@);
                }
                let ghost t = t + " "@;
                other.write_to(out);
                proof {
                    lemma_assoc(start, t, other.text());
                }
                let ghost t = t + other.text();
                out.append(")");
                proof {
                    lemma_assoc(start, t, ")"@);
                }
                let ghost t = t + ")"@;
            },
            Expr::Op1(op, expr) => {
                out.append("(");
                let ghost t = "("@;
                out.append(op.as_str());
                proof {
                    lemma_assoc(start, t, op.name());
                }
                let ghost t = t + op.name();
                out.append(" ");
                proof {
                    lemma_assoc(start, t, " "@);
                }
                let ghost t = t + " "@;
                expr.write_to(out);
                proof {
                    lemma_assoc(start, t, expr.text());
                }
                let ghost t = t + expr.text();
                out.append(")");
                proof {
                    lemma_assoc(start, t, ")"@);
                }
                let ghost t = t + ")"@;
            },
            Expr::Op2(op, left, right) => {
                out.append("(");
                let ghost t = "("@;
                out.append(op.as_str());
                proof {
                    lemma_assoc(start, t, op.name());
                }
                let ghost t = t + op.name();
                out.append(" ");
                proof {
                    lemma_assoc(start, t, " "@);
                }
                let ghost t = t + " "@;
                left.write_to(out);
                proof {
                    lemma_assoc(start, t, left.text());
                }
                let ghost t = t + left.text();
                out.append(" ");
                proof {
                    lemma_assoc(start, t, " "@);
                }
                let ghost t = t + " "@;
                right.write_to(out);
                proof {
                    lemma_assoc(start, t, right.text());
                }
                let ghost t = t + right.text();
                out.append(")");
                proof {
                    lemma_assoc(start, t, ")"@);
                }
                let ghost t = t + ")"@;
            },
            Expr::Fold { foldee, init, next_id, accum_id, body } => {
                out.append("(fold ");
                let ghost t = "(fold "@;
                foldee.write_to(out);
                proof {
                    lemma_assoc(start, t, foldee.text());
                }
                let ghost t = t + foldee.text();
                out.append(" ");
                proof {
                    lemma_assoc(start, t, " "@);
                }
                let ghost t = t + " "@;
                init.write_to(out);
                proof {
                    lemma_assoc(start, t, init.text());
                }
                let ghost t = t + init.text();
                out.append(" (lambda (");
                proof {
                    lemma_assoc(start, t, " (lambda ("@);
                }
                let ghost t = t + " (lambda ("@;
                write_id(*next_id, out);
                proof {
                    lemma_assoc(start, t, id_text(*next_id as nat));
                }
                let ghost t = t + id_text(*next_id as nat);
                out.append(" ");
                proof {
                    lemma_assoc(start, t, " "@);
                }
                let ghost t = t + " "@;
                write_id(*accum_id, out);
                proof {
                    lemma_assoc(start, t, id_text(*accum_id as nat));
                }
                let ghost t = t + id_text(*accum_id as nat);
                out.append(") ");
                proof {
                    lemma_assoc(start, t, ") "@);
                }
                let ghost t = t + ") "@;
                body.write_to(out);
                proof {
                    lemma_assoc(start, t, body.text());
                }
                let ghost t = t + body.text();
                out.append("))");
                proof {
                    lemma_assoc(start, t, "))"@);
                }
                let ghost t = t + "))"@;
            },
        }
    }

    /// The expression as text.
    pub fn to_str(&self) -> (s: String)
        ensures
            s@ == self.text(),
    {
        let mut s = String::new();
        self.write_to(&mut s);
        assert(s@ =~= self.text());
        s
    }
}

impl Program {
    /// The program as text: `(lambda (x) e)`.
    pub open spec fn text(self) -> Seq<char> {
        "(lambda ("@ + id_text(self.id as nat) + ") "@ + self.expr.text() + ")"@
    }

    /// The program as text.
    pub fn to_str(&self) -> (s: String)
        ensures
            s@ == self.text(),
    {
        let mut s = String::from_str("(lambda (");
        write_id(self.id, &mut s);
        s.append(") ");
        self.expr.write_to(&mut s);
        s.append(")");
        s
    }
}

/// Joining three texts gives the same text however the pairs are taken.
pub proof fn lemma_assoc(a: Seq<char>, b: Seq<char>, c: Seq<char>)
    ensures
        (a + b) + c == a + (b + c),
{
    assert((a + b) + c =~= a + (b + c));
}

/// Writes the name of the identifier `num` at the end of `out`.
pub fn write_id(num: Id, out: &mut String)
    ensures
        final(out)@ == old(out)@ + id_text(num as nat),
{
    let alphabet = "abcdefghijklmnopqrstuvwxyz";
    proof {
        reveal_strlit("abcdefghijklmnopqrstuvwxyz");
    }
    let mut num = num;
    let ghost whole = id_text(num as nat);
    loop
        invariant_except_break
            old(out)@ + whole == out@ + id_text(num as nat),
        invariant
            alphabet@ == "abcdefghijklmnopqrstuvwxyz"@,
            alphabet@.len() == 26,
        ensures
            out@ == old(out)@ + whole,
        decreases num,
    {
        let div = num / 26;
        let rem = num % 26;
        let digit = alphabet.substring_char(rem, rem + 1);
        assert(digit@ =~= seq![letter(rem as nat)]);
        let ghost before = out@;
        out.append(digit);
        if div == 0 {
            assert(out@ =~= before + id_text(num as nat));
            break ;
        }
        assert(out@ + id_text(div as nat) =~= before + id_text(num as nat));
        num = div;
    }
}

/// The name of the identifier `num`.
pub fn id_to_str(num: Id) -> (s: String)
    ensures
        s@ == id_text(num as nat),
{
    let mut s = String::new();
    write_id(num, &mut s);
    assert(s@ =~= id_text(num as nat));
    s
}

/// `parts` one after the other with `sep` between them.
pub open spec fn join(parts: Seq<Seq<char>>, sep: Seq<char>) -> Seq<char>
    decreases parts.len(),
{
    if parts.len() == 0 {
        Seq::empty()
    } else if parts.len() == 1 {
        parts[0]
    } else {
        join(parts.drop_last(), sep) + sep + parts.last()
    }
}

/// `name` alone where `b` holds, else nothing.
#[verifier::opaque]
pub open spec fn named(b: bool, name: Seq<char>) -> Seq<Seq<char>> {
    if b {
        seq![name]
    } else {
        Seq::empty()
    }
}

/// Where `wanted`, writes `name` at the end of `out`, after a comma unless
/// it is the first name.
fn write_name(
    out: &mut String,
    first: &mut bool,
    wanted: bool,
    name: &str,
    Ghost(parts): Ghost<Seq<Seq<char>>>,
)
    requires
        old(out)@ == join(parts, ","@),
        *old(first) == (parts.len() == 0),
    ensures
        final(out)@ == join(parts + named(wanted, name@), ","@),
        *final(first) == ((parts + named(wanted, name@)).len() == 0),
{
    reveal(named);
    if !wanted {
        assert(parts + named(wanted, name@) =~= parts);
        return ;
    }
    if !*first {
        out.append(",");
    }
    out.append(name);
    *first = false;
    proof {
        let more = parts + named(wanted, name@);
        assert(more.drop_last() =~= parts);
        assert(more.last() == name@);
        if parts.len() == 0 {
            assert(out@ =~= name@);
        }
    }
}

impl OperatorSet {
    /// The names of the operators of the set, in their fixed order.
    pub open spec fn names(self) -> Seq<Seq<char>> {
        named(self.tfold, "tfold"@) + named(self.fold, "fold"@) + named(self.if0, "if0"@) + named(
            self.has_op1(UnaOp::Not),
            "not"@,
        ) + named(self.has_op1(UnaOp::Shl1), "shl1"@) + named(
            self.has_op1(UnaOp::Shr1),
            "shr1"@,
        ) + named(self.has_op1(UnaOp::Shr4), "shr4"@) + named(
            self.has_op1(UnaOp::Shr16),
            "shr16"@,
        ) + named(self.has_op2(BinOp::And), "and"@) + named(self.has_op2(BinOp::Or), "or"@)
            + named(self.has_op2(BinOp::Xor), "xor"@) + named(self.has_op2(BinOp::Plus), "plus"@)
    }

    /// The set as text: the names of its operators with commas between them.
    pub open spec fn text(self) -> Seq<char> {
        join(self.names(), ","@)
    }

    /// The set as text.
    pub fn to_str(&self) -> (s: String)
        ensures
            s@ == self.text(),
    {
        let mut s = String::new();
        let mut first = true;
        let ghost p1 = named(self.tfold, "tfold"@);
        if self.tfold {
            s.append("tfold");
            first = false;
        }
        assert(s@ =~= join(p1, ","@) && first == (p1.len() == 0)) by {
            reveal(named);
        }
        write_name(&mut s, &mut first, self.fold, "fold", Ghost(p1));
        let ghost p2 = p1 + named(self.fold, "fold"@);
        write_name(&mut s, &mut first, self.if0, "if0", Ghost(p2));
        let ghost p3 = p2 + named(self.if0, "if0"@);
        write_name(&mut s, &mut first, UnaOp::Not.in_ops(self), "not", Ghost(p3));
        let ghost p4 = p3 + named(self.has_op1(UnaOp::Not), "not"@);
        write_name(&mut s, &mut first, UnaOp::Shl1.in_ops(self), "shl1", Ghost(p4));
        let ghost p5 = p4 + named(self.has_op1(UnaOp::Shl1), "shl1"@);
        write_name(&mut s, &mut first, UnaOp::Shr1.in_ops(self), "shr1", Ghost(p5));
        let ghost p6 = p5 + named(self.has_op1(UnaOp::Shr1), "shr1"@);
        write_name(&mut s, &mut first, UnaOp::Shr4.in_ops(self), "shr4", Ghost(p6));
        let ghost p7 = p6 + named(self.has_op1(UnaOp::Shr4), "shr4"@);
        write_name(&mut s, &mut first, UnaOp::Shr16.in_ops(self), "shr16", Ghost(p7));
        let ghost p8 = p7 + named(self.has_op1(UnaOp::Shr16), "shr16"@);
        write_name(&mut s, &mut first, BinOp::And.in_ops(self), "and", Ghost(p8));
        let ghost p9 = p8 + named(self.has_op2(BinOp::And), "and"@);
        write_name(&mut s, &mut first, BinOp::Or.in_ops(self), "or", Ghost(p9));
        let ghost p10 = p9 + named(self.has_op2(BinOp::Or), "or"@);
        write_name(&mut s, &mut first, BinOp::Xor.in_ops(self), "xor", Ghost(p10));
        let ghost p11 = p10 + named(self.has_op2(BinOp::Xor), "xor"@);
        write_name(&mut s, &mut first, BinOp::Plus.in_ops(self), "plus", Ghost(p11));
        let ghost parts = p11 + named(self.has_op2(BinOp::Plus), "plus"@);
        assert(parts == self.names());
        s
    }
}

} // verus!
