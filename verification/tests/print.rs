use squiggle::print::id_to_str;
use squiggle::program::{BinOp, Expr, OperatorSet, Program, UnaOp};

#[test]
fn identifiers_are_written_to_the_base_26() {
    assert_eq!(id_to_str(0), "a");
    assert_eq!(id_to_str(1), "b");
    assert_eq!(id_to_str(25), "z");
    assert_eq!(id_to_str(26), "ab");
    assert_eq!(id_to_str(27), "bb");
    assert_eq!(id_to_str(51), "zb");
    assert_eq!(id_to_str(52), "ac");
    assert_eq!(id_to_str(26 * 26), "aab");
    assert_eq!(id_to_str(26 * 26 + 26 * 3 + 4), "edb");
}

#[test]
fn operators_have_their_names() {
    assert_eq!(UnaOp::Not.to_str(), "not");
    assert_eq!(UnaOp::Shl1.to_str(), "shl1");
    assert_eq!(UnaOp::Shr1.to_str(), "shr1");
    assert_eq!(UnaOp::Shr4.to_str(), "shr4");
    assert_eq!(UnaOp::Shr16.to_str(), "shr16");
    assert_eq!(BinOp::And.to_str(), "and");
    assert_eq!(BinOp::Or.to_str(), "or");
    assert_eq!(BinOp::Xor.to_str(), "xor");
    assert_eq!(BinOp::Plus.to_str(), "plus");
}

#[test]
fn expressions_are_written_in_brackets() {
    assert_eq!(Expr::Zero.to_str(), "0");
    assert_eq!(Expr::One.to_str(), "1");
    assert_eq!(Expr::Ident(2).to_str(), "c");
    let e = Expr::If0(
        Box::new(Expr::Op2(BinOp::And, Box::new(Expr::Ident(0)), Box::new(Expr::One))),
        Box::new(Expr::Op1(UnaOp::Shr16, Box::new(Expr::Ident(0)))),
        Box::new(Expr::Zero),
    );
    assert_eq!(e.to_str(), "(if0 (and a 1) (shr16 a) 0)");
}

#[test]
fn programs_are_written_as_lambdas() {
    let p = Program::new(0, Box::new(Expr::Ident(0)));
    assert_eq!(p.to_str(), "(lambda (a) a)");
    let q = Program::new(
        0,
        Box::new(Expr::Fold {
            foldee: Box::new(Expr::Ident(0)),
            init: Box::new(Expr::Zero),
            next_id: 1,
            accum_id: 2,
            body: Box::new(Expr::Op2(
                BinOp::Plus,
                Box::new(Expr::Ident(1)),
                Box::new(Expr::Ident(2)),
            )),
        }),
    );
    assert_eq!(q.to_str(), "(lambda (a) (fold a 0 (lambda (b c) (plus b c))))");
}

#[test]
fn write_to_appends() {
    let mut out = String::from("x = ");
    Expr::Op1(UnaOp::Not, Box::new(Expr::One)).write_to(&mut out);
    assert_eq!(out, "x = (not 1)");
}

#[test]
fn operator_sets_are_written_in_their_order() {
    let mut ops = OperatorSet::new();
    assert_eq!(ops.to_str(), "");
    ops.add(vec!["plus".to_string()]);
    assert_eq!(ops.to_str(), "plus");
    ops.add(vec!["shr16".to_string(), "if0".to_string(), "not".to_string()]);
    assert_eq!(ops.to_str(), "if0,not,shr16,plus");
    let mut all = OperatorSet::new();
    all.add(
        [
            "plus", "xor", "or", "and", "shr16", "shr4", "shr1", "shl1", "not", "if0", "fold",
            "tfold",
        ]
        .iter()
        .map(|s| s.to_string())
        .collect(),
    );
    assert_eq!(all.to_str(), "tfold,fold,if0,not,shl1,shr1,shr4,shr16,and,or,xor,plus");
}
