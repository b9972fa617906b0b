use squiggle::eval::Eval;
use squiggle::gen::RandomGenState;
use squiggle::parse::Parse;
use squiggle::program::{BinOp, Expr, OperatorSet, Program, UnaOp};
use squiggle::rng::XorShiftRng;
use squiggle::webapi::Problem;

fn generator(ops: &[&str], seed: u64) -> RandomGenState {
    let mut opset = OperatorSet::new();
    opset.add(ops.iter().map(|s| s.to_string()).collect());
    RandomGenState::new(Problem { id: "p".to_string(), size: 30, operators: opset }, seed)
}

#[test]
fn generated_programs_are_read_back_as_they_are() {
    let all = ["not", "shl1", "shr1", "shr4", "shr16", "and", "or", "xor", "plus", "if0", "fold"];
    let mut gen = generator(&all, 2013);
    let mut inputs = XorShiftRng::from_seed(1);
    for size in 2..=30usize {
        for _ in 0..40 {
            let p = gen.gen_program(size).unwrap();
            let text = p.to_str();
            let read = Parse::parse(&text.as_str()).unwrap();
            assert_eq!(read, p);
            assert_eq!(read.len() as usize, size);
            assert_eq!(read.to_str(), text);
            for _ in 0..5 {
                let x = inputs.next_u64();
                assert_eq!(read.eval(x), p.eval(x));
            }
        }
    }
}

#[test]
fn identifiers_are_renumbered_in_the_order_of_the_text() {
    let p = Program::new(
        9,
        Box::new(Expr::Fold {
            foldee: Box::new(Expr::Ident(9)),
            init: Box::new(Expr::Zero),
            next_id: 30,
            accum_id: 4,
            body: Box::new(Expr::Op2(
                BinOp::Xor,
                Box::new(Expr::Ident(4)),
                Box::new(Expr::Op2(
                    BinOp::And,
                    Box::new(Expr::Ident(30)),
                    Box::new(Expr::Ident(9)),
                )),
            )),
        }),
    );
    let text = p.to_str();
    assert_eq!(text, "(lambda (j) (fold j 0 (lambda (eb e) (xor e (and eb j)))))");
    let read = Parse::parse(&text.as_str()).unwrap();
    assert_eq!(
        read,
        Program::new(
            0,
            Box::new(Expr::Fold {
                foldee: Box::new(Expr::Ident(0)),
                init: Box::new(Expr::Zero),
                next_id: 1,
                accum_id: 2,
                body: Box::new(Expr::Op2(
                    BinOp::Xor,
                    Box::new(Expr::Ident(2)),
                    Box::new(Expr::Op2(
                        BinOp::And,
                        Box::new(Expr::Ident(1)),
                        Box::new(Expr::Ident(0)),
                    )),
                )),
            })
        )
    );
    assert_eq!(read.len(), p.len());
    let mut inputs = XorShiftRng::from_seed(2);
    for _ in 0..100 {
        let x = inputs.next_u64();
        assert_eq!(read.eval(x), p.eval(x));
    }
}

#[test]
fn a_shadowed_argument_keeps_its_meaning() {
    // the fold binds the argument again
    let p = Program::new(
        3,
        Box::new(Expr::Op2(
            BinOp::Plus,
            Box::new(Expr::Fold {
                foldee: Box::new(Expr::Op1(UnaOp::Not, Box::new(Expr::Ident(3)))),
                init: Box::new(Expr::Ident(3)),
                next_id: 3,
                accum_id: 3,
                body: Box::new(Expr::Op1(UnaOp::Shl1, Box::new(Expr::Ident(3)))),
            }),
            Box::new(Expr::Ident(3)),
        )),
    );
    assert!(p.is_closed());
    let read = Parse::parse(&p.to_str().as_str()).unwrap();
    assert!(read.is_closed());
    assert_eq!(read.len(), p.len());
    for x in [0u64, 1, 0xff, 0x0123456789abcdef, u64::MAX] {
        assert_eq!(read.eval(x), p.eval(x));
        assert_eq!(p.eval(x), (x << 8).wrapping_add(x));
    }
}

#[test]
fn unbound_identifiers_are_found() {
    let open = Program::new(0, Box::new(Expr::Ident(1)));
    assert!(!open.is_closed());
    let late = Program::new(
        0,
        Box::new(Expr::Op2(
            BinOp::And,
            Box::new(Expr::Fold {
                foldee: Box::new(Expr::Ident(0)),
                init: Box::new(Expr::Zero),
                next_id: 1,
                accum_id: 2,
                body: Box::new(Expr::Ident(2)),
            }),
            // behind the fold its names are gone
            Box::new(Expr::Ident(2)),
        )),
    );
    assert!(!late.is_closed());
    let early = Program::new(
        0,
        Box::new(Expr::Fold {
            foldee: Box::new(Expr::Ident(1)),
            init: Box::new(Expr::Zero),
            next_id: 1,
            accum_id: 2,
            body: Box::new(Expr::Ident(2)),
        }),
    );
    assert!(!early.is_closed());
    let fine = Parse::parse(&"(lambda (x) (fold x 0 (lambda (y z) (or x (or y z)))))").unwrap();
    assert!(fine.is_closed());
}
