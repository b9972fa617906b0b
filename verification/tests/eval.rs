use squiggle::eval::{Eval, Scope};
use squiggle::program::{BinOp, Expr, Program, UnaOp};
use squiggle::rng::XorShiftRng;

fn fold_sum() -> Box<Expr> {
    Box::new(Expr::Fold {
        foldee: Box::new(Expr::Ident(0)),
        init: Box::new(Expr::Zero),
        next_id: 1,
        accum_id: 2,
        body: Box::new(Expr::Op2(BinOp::Plus, Box::new(Expr::Ident(1)), Box::new(Expr::Ident(2)))),
    })
}

fn byte_sum(mut x: u64) -> u64 {
    let mut accum = 0;
    for _ in 0..8 {
        accum += x & 0xff;
        x >>= 8;
    }
    accum
}

fn unary(op: UnaOp) -> Program {
    Program::new(0, Box::new(Expr::Op1(op, Box::new(Expr::Ident(0)))))
}

fn binary(op: BinOp) -> Program {
    Program::new(0, Box::new(Expr::Op2(op, Box::new(Expr::Ident(0)), Box::new(Expr::One))))
}

fn if0(cond: Expr) -> Program {
    Program::new(
        0,
        Box::new(Expr::If0(Box::new(cond), Box::new(Expr::One), Box::new(Expr::Zero))),
    )
}

#[test]
fn eval_test_eval() {
    let progs_fn: Vec<(Program, Box<dyn Fn(u64) -> u64>)> = vec![
        (Program::new(0, Box::new(Expr::Zero)), Box::new(|_| 0)),
        (Program::new(0, Box::new(Expr::One)), Box::new(|_| 1)),
        (Program::new(0, Box::new(Expr::Ident(0))), Box::new(|x| x)),
        (unary(UnaOp::Not), Box::new(|x| !x)),
        (unary(UnaOp::Shl1), Box::new(|x| x << 1)),
        (unary(UnaOp::Shr1), Box::new(|x| x >> 1)),
        (unary(UnaOp::Shr4), Box::new(|x| x >> 4)),
        (unary(UnaOp::Shr16), Box::new(|x| x >> 16)),
        (binary(BinOp::And), Box::new(|x| x & 1)),
        (binary(BinOp::Or), Box::new(|x| x | 1)),
        (binary(BinOp::Xor), Box::new(|x| x ^ 1)),
        (binary(BinOp::Plus), Box::new(|x| x.wrapping_add(1))),
        (if0(Expr::Ident(0)), Box::new(|x| if x == 0 { 1 } else { 0 })),
        (if0(Expr::Zero), Box::new(|_| 1)),
        (if0(Expr::One), Box::new(|_| 0)),
        (Program::new(0, fold_sum()), Box::new(byte_sum)),
    ];
    assert_eq!(progs_fn.len(), 16);

    let mut rng = XorShiftRng::from_seed(0x5eed);
    for (p, f) in progs_fn.into_iter() {
        // some "special cases", maybe.
        assert_eq!(p.eval(0), f(0));
        assert_eq!(p.eval(1), f(1));
        assert_eq!(p.eval(u64::MAX), f(u64::MAX));

        for _ in 0..100 {
            let i: u64 = rng.next_u64();
            assert_eq!(p.eval(i), f(i));
        }
    }
}

#[test]
fn identity_returns_its_input() {
    let p = Program::new(0, Box::new(Expr::Ident(0)));
    assert_eq!(p.len(), 2);
    for x in [0u64, 1, 42, 0xdead_beef, u64::MAX] {
        assert_eq!(p.eval(x), x);
    }
}

#[test]
fn fold_sums_the_bytes() {
    let p = Program::new(
        0,
        Box::new(Expr::Fold {
            foldee: Box::new(Expr::Ident(0)),
            init: Box::new(Expr::Zero),
            next_id: 1,
            accum_id: 2,
            body: Box::new(Expr::Op2(
                BinOp::Plus,
                Box::new(Expr::Ident(1)),
                Box::new(Expr::Ident(2)),
            )),
        }),
    );
    assert_eq!(p.len(), 8);
    assert_eq!(p.eval(0x0102030405060708), 0x24);
}

#[test]
fn fold_walks_from_the_lowest_byte() {
    // the accumulator ends as the last byte bound, the highest
    let p = Program::new(
        0,
        Box::new(Expr::Fold {
            foldee: Box::new(Expr::Ident(0)),
            init: Box::new(Expr::Zero),
            next_id: 1,
            accum_id: 2,
            body: Box::new(Expr::Ident(1)),
        }),
    );
    assert_eq!(p.eval(0x1122334455667788), 0x11);
    // shl1 of the accumulator, or the byte: the bytes overlap in their order
    let q = Program::new(
        0,
        Box::new(Expr::Fold {
            foldee: Box::new(Expr::Ident(0)),
            init: Box::new(Expr::One),
            next_id: 1,
            accum_id: 2,
            body: Box::new(Expr::Op2(
                BinOp::Plus,
                Box::new(Expr::Op1(UnaOp::Shl1, Box::new(Expr::Ident(2)))),
                Box::new(Expr::Ident(1)),
            )),
        }),
    );
    let mut acc: u64 = 1;
    let x: u64 = 0x0102030405060708;
    for i in 0..8 {
        acc = (acc << 1).wrapping_add((x >> (8 * i)) & 0xff);
    }
    assert_eq!(q.eval(x), acc);
}

#[test]
fn mask_low_bit() {
    let p = Program::new(
        0,
        Box::new(Expr::Op2(BinOp::And, Box::new(Expr::Ident(0)), Box::new(Expr::One))),
    );
    assert_eq!(p.len(), 4);
    assert_eq!(p.eval(0xFFFFFFFFFFFFFFFE), 0x0);
    assert_eq!(p.eval(0x1), 0x1);
}

#[test]
fn shift_and_add() {
    let p = Program::new(
        0,
        Box::new(Expr::Op2(
            BinOp::Plus,
            Box::new(Expr::Op1(UnaOp::Shl1, Box::new(Expr::Ident(0)))),
            Box::new(Expr::Ident(0)),
        )),
    );
    assert_eq!(p.len(), 5);
    assert_eq!(p.eval(10), 30);
}

#[test]
fn plus_wraps_at_64_bits() {
    let p = Program::new(
        0,
        Box::new(Expr::Op2(BinOp::Plus, Box::new(Expr::Ident(0)), Box::new(Expr::Ident(0)))),
    );
    assert_eq!(p.eval(u64::MAX), u64::MAX - 1);
    assert_eq!(p.eval(1 << 63), 0);
}

#[test]
fn inner_binding_shadows_the_argument() {
    // the fold binds 0 again: the body sees the byte, not the argument
    let p = Program::new(
        0,
        Box::new(Expr::Fold {
            foldee: Box::new(Expr::Ident(0)),
            init: Box::new(Expr::Zero),
            next_id: 0,
            accum_id: 1,
            body: Box::new(Expr::Op2(
                BinOp::Or,
                Box::new(Expr::Ident(0)),
                Box::new(Expr::Ident(1)),
            )),
        }),
    );
    assert_eq!(p.eval(0x0102040810204080), 0xff);
}

#[test]
fn scopes_shadow_and_look_up() {
    let outer = Scope { id: 0, val: 10, parent: None };
    assert!(outer.binds(0));
    assert!(!outer.binds(1));
    assert_eq!(outer.lookup(0), 10);
    let middle = outer.push(1, 20);
    let inner = middle.push(0, 30);
    assert_eq!(inner.lookup(0), 30);
    assert_eq!(inner.lookup(1), 20);
    assert_eq!(middle.lookup(0), 10);
    assert!(inner.binds(1) && !inner.binds(2));
    let e = Expr::Op2(BinOp::Plus, Box::new(Expr::Ident(0)), Box::new(Expr::Ident(1)));
    assert!(inner.closes(&e));
    assert!(!outer.closes(&e));
    assert_eq!(inner.eval(&e), 50);
    assert_eq!(middle.eval(&e), 30);
}
