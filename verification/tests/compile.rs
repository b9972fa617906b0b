use squiggle::compile::{compile_program, Code};
use squiggle::eval::Eval;
use squiggle::program::{BinOp, Expr, Program, UnaOp};
use squiggle::rng::XorShiftRng;

fn unary_of(op: UnaOp) -> Program {
    Program::new(0, Box::new(Expr::Op1(op, Box::new(Expr::Ident(0)))))
}

fn binary_of(op: BinOp) -> Program {
    Program::new(0, Box::new(Expr::Op2(op, Box::new(Expr::Ident(0)), Box::new(Expr::One))))
}

fn if0_of(cond: Expr) -> Program {
    Program::new(
        0,
        Box::new(Expr::If0(Box::new(cond), Box::new(Expr::One), Box::new(Expr::Zero))),
    )
}

#[test]
fn compile_test_eval() {
    let fold_expr = Box::new(Expr::Fold {
        foldee: Box::new(Expr::Ident(0)),
        init: Box::new(Expr::Zero),
        next_id: 1,
        accum_id: 2,
        body: Box::new(Expr::Op2(BinOp::Plus, Box::new(Expr::Ident(1)), Box::new(Expr::Ident(2)))),
    });
    let fold_fn = |mut x: u64| {
        let mut accum = 0;
        for _ in 0..8 {
            accum += x & 0xff;
            x >>= 8;
        }
        accum
    };

    let progs_fn: Vec<(Program, Box<dyn Fn(u64) -> u64>)> = vec![
        (Program::new(0, Box::new(Expr::Zero)), Box::new(|_| 0)),
        (Program::new(0, Box::new(Expr::One)), Box::new(|_| 1)),
        (Program::new(0, Box::new(Expr::Ident(0))), Box::new(|x| x)),
        (unary_of(UnaOp::Not), Box::new(|x| !x)),
        (unary_of(UnaOp::Shl1), Box::new(|x| x << 1)),
        (unary_of(UnaOp::Shr1), Box::new(|x| x >> 1)),
        (unary_of(UnaOp::Shr4), Box::new(|x| x >> 4)),
        (unary_of(UnaOp::Shr16), Box::new(|x| x >> 16)),
        (binary_of(BinOp::And), Box::new(|x| x & 1)),
        (binary_of(BinOp::Or), Box::new(|x| x | 1)),
        (binary_of(BinOp::Xor), Box::new(|x| x ^ 1)),
        (binary_of(BinOp::Plus), Box::new(|x| x.wrapping_add(1))),
        (if0_of(Expr::Ident(0)), Box::new(|x| if x == 0 { 1 } else { 0 })),
        (if0_of(Expr::Zero), Box::new(|_| 1)),
        (if0_of(Expr::One), Box::new(|_| 0)),
        (Program::new(0, fold_expr), Box::new(fold_fn)),
    ];
    assert_eq!(progs_fn.len(), 16);

    let mut rng = XorShiftRng::from_seed(0xc0de);
    for (p, f) in progs_fn.into_iter() {
        let compiled = compile_program(&p);

        // some "special cases", maybe.
        assert_eq!(compiled.eval(0), f(0));
        assert_eq!(compiled.eval(1), f(1));
        assert_eq!(compiled.eval(u64::MAX), f(u64::MAX));

        for _ in 0..100 {
            let i: u64 = rng.next_u64();
            assert_eq!(compiled.eval(i), f(i));
        }
    }
}

#[test]
fn identifiers_become_places() {
    let p = Program::new(
        7,
        Box::new(Expr::Fold {
            foldee: Box::new(Expr::Ident(7)),
            init: Box::new(Expr::Zero),
            next_id: 3,
            accum_id: 7,
            body: Box::new(Expr::Op2(
                BinOp::Xor,
                Box::new(Expr::Ident(3)),
                Box::new(Expr::Ident(7)),
            )),
        }),
    );
    let c = compile_program(&p);
    assert_eq!(
        *c.expr,
        Code::Fold {
            foldee: Box::new(Code::Slot(0)),
            init: Box::new(Code::Zero),
            body: Box::new(Code::Op2(
                BinOp::Xor,
                Box::new(Code::Slot(1)),
                Box::new(Code::Slot(2))
            )),
        }
    );
    let x = 0x0102040810204080u64;
    assert_eq!(c.eval(x), 0xff);
    assert_eq!(c.eval(x), p.eval(x));
}

#[test]
fn compiled_and_interpreted_agree() {
    let p = Program::new(
        0,
        Box::new(Expr::If0(
            Box::new(Expr::Op2(BinOp::And, Box::new(Expr::Ident(0)), Box::new(Expr::One))),
            Box::new(Expr::Fold {
                foldee: Box::new(Expr::Op1(UnaOp::Not, Box::new(Expr::Ident(0)))),
                init: Box::new(Expr::Ident(0)),
                next_id: 1,
                accum_id: 2,
                body: Box::new(Expr::Op2(
                    BinOp::Plus,
                    Box::new(Expr::Op1(UnaOp::Shl1, Box::new(Expr::Ident(2)))),
                    Box::new(Expr::Op2(
                        BinOp::Xor,
                        Box::new(Expr::Ident(1)),
                        Box::new(Expr::Ident(0)),
                    )),
                )),
            }),
            Box::new(Expr::Op1(UnaOp::Shr4, Box::new(Expr::Ident(0)))),
        )),
    );
    let c = compile_program(&p);
    let mut rng = XorShiftRng::from_seed(3);
    for _ in 0..1000 {
        let x = rng.next_u64();
        assert_eq!(c.eval(x), p.eval(x));
    }
}
