use squiggle::program::{BinOp, Expr, OperatorSet, Program, UnaOp};

fn names(ops: &[&str]) -> Vec<String> {
    ops.iter().map(|s| s.to_string()).collect()
}

#[test]
fn a_new_set_is_empty() {
    let ops = OperatorSet::new();
    assert_eq!(ops.op1, 0);
    assert_eq!(ops.op2, 0);
    assert!(!ops.if0 && !ops.fold && !ops.tfold && !ops.bonus);
    for op in [UnaOp::Not, UnaOp::Shl1, UnaOp::Shr1, UnaOp::Shr4, UnaOp::Shr16] {
        assert!(!op.in_ops(&ops));
    }
    for op in [BinOp::And, BinOp::Or, BinOp::Xor, BinOp::Plus] {
        assert!(!op.in_ops(&ops));
    }
}

#[test]
fn add_sets_the_bit_of_each_name() {
    let mut ops = OperatorSet::new();
    ops.add(names(&["shl1", "xor", "if0"]));
    assert_eq!(ops.op1, 0b00010);
    assert_eq!(ops.op2, 0b0100);
    assert!(ops.if0 && !ops.fold && !ops.tfold && !ops.bonus);
    assert!(UnaOp::Shl1.in_ops(&ops));
    assert!(!UnaOp::Not.in_ops(&ops));
    assert!(BinOp::Xor.in_ops(&ops));
    assert!(!BinOp::Plus.in_ops(&ops));
    ops.add(names(&["not", "shr1", "shr4", "shr16", "and", "or", "plus", "fold", "tfold", "bonus"]));
    assert_eq!(ops.op1, 0b11111);
    assert_eq!(ops.op2, 0b1111);
    assert!(ops.if0 && ops.fold && ops.tfold && ops.bonus);
}

#[test]
fn add_name_says_whether_the_name_is_known() {
    let mut ops = OperatorSet::new();
    assert!(ops.add_name("plus"));
    assert!(!ops.add_name("minus"));
    assert!(!ops.add_name(""));
    assert!(!ops.add_name("Plus"));
    let mut only_plus = OperatorSet::new();
    only_plus.add(names(&["plus"]));
    assert_eq!(ops, only_plus);
}

#[test]
fn each_operator_has_a_bit_of_its_own() {
    let una = [UnaOp::Not, UnaOp::Shl1, UnaOp::Shr1, UnaOp::Shr4, UnaOp::Shr16];
    assert_eq!(una.map(|op| op.bit()), [1, 2, 4, 8, 16]);
    let bin = [BinOp::And, BinOp::Or, BinOp::Xor, BinOp::Plus];
    assert_eq!(bin.map(|op| op.bit()), [1, 2, 4, 8]);
}

#[test]
fn sizes_count_a_fold_twice() {
    assert_eq!(Expr::Zero.len(), 1);
    assert_eq!(Expr::One.len(), 1);
    assert_eq!(Expr::Ident(3).len(), 1);
    assert_eq!(Expr::Op1(UnaOp::Not, Box::new(Expr::Zero)).len(), 2);
    assert_eq!(Expr::Op2(BinOp::And, Box::new(Expr::Zero), Box::new(Expr::One)).len(), 3);
    assert_eq!(
        Expr::If0(Box::new(Expr::Zero), Box::new(Expr::One), Box::new(Expr::Ident(0))).len(),
        4
    );
    let fold = Expr::Fold {
        foldee: Box::new(Expr::Ident(0)),
        init: Box::new(Expr::Zero),
        next_id: 1,
        accum_id: 2,
        body: Box::new(Expr::Op2(BinOp::Plus, Box::new(Expr::Ident(1)), Box::new(Expr::Ident(2)))),
    };
    assert_eq!(fold.len(), 7);
    assert_eq!(Program::new(0, Box::new(fold)).len(), 8);
}

#[test]
fn len_within_stops_at_the_limit() {
    let e = Expr::Op2(
        BinOp::And,
        Box::new(Expr::Op1(UnaOp::Not, Box::new(Expr::Zero))),
        Box::new(Expr::One),
    );
    assert_eq!(e.len_within(4), Some(4));
    assert_eq!(e.len_within(255), Some(4));
    assert_eq!(e.len_within(3), None);
    assert_eq!(e.len_within(0), None);
    let p = Program::new(0, Box::new(e));
    assert_eq!(p.len_within(5), Some(5));
    assert_eq!(p.len_within(4), None);
    let mut deep = Expr::Zero;
    for _ in 0..300 {
        deep = Expr::Op1(UnaOp::Shl1, Box::new(deep));
    }
    assert_eq!(deep.len_within(255), None);
}

#[test]
fn operators_of_a_program_are_those_it_uses() {
    let p = Program::new(
        0,
        Box::new(Expr::If0(
            Box::new(Expr::Op2(BinOp::And, Box::new(Expr::Ident(0)), Box::new(Expr::One))),
            Box::new(Expr::Op1(UnaOp::Shr4, Box::new(Expr::Ident(0)))),
            Box::new(Expr::Fold {
                foldee: Box::new(Expr::One),
                init: Box::new(Expr::Zero),
                next_id: 1,
                accum_id: 2,
                body: Box::new(Expr::Op2(
                    BinOp::Plus,
                    Box::new(Expr::Ident(1)),
                    Box::new(Expr::Ident(2)),
                )),
            }),
        )),
    );
    let ops = p.operators();
    assert_eq!(ops.op1, 8);
    assert_eq!(ops.op2, 1 | 8);
    assert!(ops.if0 && ops.fold && !ops.tfold && !ops.bonus);
    assert_eq!(ops.to_str(), "fold,if0,shr4,and,plus");
}

#[test]
fn a_fold_over_an_identifier_from_zero_is_a_tfold() {
    let p = Program::new(
        0,
        Box::new(Expr::Fold {
            foldee: Box::new(Expr::Ident(0)),
            init: Box::new(Expr::Zero),
            next_id: 1,
            accum_id: 2,
            body: Box::new(Expr::Op2(
                BinOp::Xor,
                Box::new(Expr::Ident(1)),
                Box::new(Expr::Op1(UnaOp::Not, Box::new(Expr::Ident(2)))),
            )),
        }),
    );
    let ops = p.operators();
    assert!(ops.tfold && !ops.fold && !ops.if0);
    assert_eq!(ops.op1, 1);
    assert_eq!(ops.op2, 4);
    // from one, it is a fold like any other
    let q = Program::new(
        0,
        Box::new(Expr::Fold {
            foldee: Box::new(Expr::Ident(0)),
            init: Box::new(Expr::One),
            next_id: 1,
            accum_id: 2,
            body: Box::new(Expr::Ident(1)),
        }),
    );
    let ops = q.operators();
    assert!(!ops.tfold && ops.fold);
}

#[test]
fn add_from_expr_keeps_what_was_there() {
    let mut ops = OperatorSet::new();
    ops.add(names(&["not", "tfold"]));
    ops.add_from_expr(&Expr::Op2(BinOp::Or, Box::new(Expr::Zero), Box::new(Expr::One)));
    assert_eq!(ops.op1, 1);
    assert_eq!(ops.op2, 2);
    assert!(ops.tfold && !ops.fold && !ops.if0);
}

#[test]
fn clones_are_equal() {
    let e = Expr::Fold {
        foldee: Box::new(Expr::Ident(0)),
        init: Box::new(Expr::Zero),
        next_id: 1,
        accum_id: 2,
        body: Box::new(Expr::If0(
            Box::new(Expr::Ident(1)),
            Box::new(Expr::Op1(UnaOp::Shr1, Box::new(Expr::Ident(2)))),
            Box::new(Expr::Op2(BinOp::And, Box::new(Expr::One), Box::new(Expr::Ident(0)))),
        )),
    };
    assert_eq!(e.clone(), e);
    let p = Program::new(0, Box::new(e));
    assert_eq!(p.clone(), p);
}
