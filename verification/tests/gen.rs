use squiggle::eval::Eval;
use squiggle::gen::{check_request, is_blocked, is_fillable, nudge, RandomGenState, Weights};
use squiggle::parse::Parse;
use squiggle::program::{BinOp, Expr, OperatorSet, Program, UnaOp};
use squiggle::search::RandomGen;
use squiggle::webapi::Problem;

fn names(ops: &[&str]) -> Vec<String> {
    ops.iter().map(|s| s.to_string()).collect()
}

fn problem(size: u8, ops: &[&str]) -> Problem {
    let mut opset = OperatorSet::new();
    opset.add(names(ops));
    Problem { id: "p".to_string(), size, operators: opset }
}

fn uses_only(e: &Expr, ops: &OperatorSet) -> bool {
    match e {
        Expr::Zero | Expr::One | Expr::Ident(_) => true,
        Expr::If0(c, t, f) => ops.if0 && uses_only(c, ops) && uses_only(t, ops) && uses_only(f, ops),
        Expr::Op1(op, a) => op.in_ops(ops) && uses_only(a, ops),
        Expr::Op2(op, l, r) => op.in_ops(ops) && uses_only(l, ops) && uses_only(r, ops),
        Expr::Fold { foldee, init, body, .. } => {
            ops.fold && uses_only(foldee, ops) && uses_only(init, ops) && uses_only(body, ops)
        }
    }
}

fn has_fold(e: &Expr) -> bool {
    match e {
        Expr::Zero | Expr::One | Expr::Ident(_) => false,
        Expr::If0(c, t, f) => has_fold(c) || has_fold(t) || has_fold(f),
        Expr::Op1(_, a) => has_fold(a),
        Expr::Op2(_, l, r) => has_fold(l) || has_fold(r),
        Expr::Fold { .. } => true,
    }
}

fn has_if0(e: &Expr) -> bool {
    match e {
        Expr::Zero | Expr::One | Expr::Ident(_) => false,
        Expr::If0(..) => true,
        Expr::Op1(_, a) => has_if0(a),
        Expr::Op2(_, l, r) => has_if0(l) || has_if0(r),
        Expr::Fold { foldee, init, body, .. } => has_if0(foldee) || has_if0(init) || has_if0(body),
    }
}

#[test]
#[allow(non_snake_case)]
fn SqTTVYnARE6FeVMn9VNsUOTa() {
    let mut opset = OperatorSet::new();
    opset.add(names(&["if0", "and", "or", "plus"]));
    let problem = Problem {
        id: "test-SqTTVYnARE6FeVMn9VNsUOTa".to_string(),
        size: 11,
        operators: opset,
    };
    let mut gen = RandomGen::new(problem, vec![], 1);
    for _ in 0..10 {
        gen.next(10000);
    }
}

#[test]
fn no_unaops_noif_fold() {
    let mut opset = OperatorSet::new();
    opset.add(names(&["and", "or", "plus", "xor", "fold"]));
    let problem = Problem { id: "no_unaops_noif_fold".to_string(), size: 12, operators: opset };
    let mut gen = RandomGen::new(problem, vec![], 2);
    for _ in 0..10 {
        gen.next(10000);
    }
}

#[test]
fn programs_have_the_size_and_the_operators_asked_for() {
    let cases: Vec<(u8, Vec<&str>)> = vec![
        (2, vec![]),
        (3, vec!["not"]),
        (4, vec!["and"]),
        (5, vec!["shl1", "plus"]),
        (8, vec!["if0", "shr4", "xor"]),
        (11, vec!["if0", "and", "or", "plus"]),
        (12, vec!["and", "or", "plus", "xor", "fold"]),
        (15, vec!["not", "shl1", "shr1", "shr4", "shr16", "and", "or", "xor", "plus", "if0", "fold"]),
        (30, vec!["not", "fold", "plus"]),
        (30, vec!["shr16", "if0"]),
    ];
    for (seed, (size, ops)) in cases.into_iter().enumerate() {
        let p = problem(size, &ops);
        assert!(check_request(&p));
        let operators = p.operators;
        let mut gen = RandomGenState::new(p, seed as u64 + 10);
        assert!(gen.can_generate(size as usize));
        let mut made = 0;
        for _ in 0..300 {
            if let Some(prog) = gen.gen_program(size as usize) {
                made += 1;
                assert_eq!(prog.len(), size);
                assert_eq!(prog.id, 0);
                assert!(uses_only(&prog.expr, &operators));
                assert!(prog.is_closed());
                prog.eval(0x0123456789abcdef);
            } else {
                // only without a unary operator can a candidate come to nothing
                assert_eq!(operators.op1, 0);
            }
        }
        assert!(made > 0);
    }
}

#[test]
fn with_a_unary_operator_every_size_is_made() {
    let p = problem(30, &["shr1", "and", "if0", "fold"]);
    let mut gen = RandomGenState::new(p, 5);
    for size in 1..=40usize {
        for idents in 1..=3usize {
            let e = gen.gen_expr(size, idents, idents == 1).unwrap();
            assert_eq!(e.len() as usize, size);
        }
    }
}

#[test]
fn without_operators_only_atoms_are_made() {
    let p = problem(3, &[]);
    let mut gen = RandomGenState::new(p, 5);
    let mut seen = [false; 5];
    for _ in 0..200 {
        match gen.gen_expr(1, 3, false).unwrap() {
            Expr::Zero => seen[0] = true,
            Expr::One => seen[1] = true,
            Expr::Ident(id) => {
                assert!(id < 3);
                seen[2 + id] = true;
            }
            _ => panic!("an atom has size 1"),
        }
    }
    assert_eq!(seen, [true; 5]);
    // nothing larger can be asked for
    assert!(gen.can_ask(1, false));
    assert!(!gen.can_ask(0, false));
    assert!(!gen.can_ask(2, false));
    assert!(!gen.can_ask(4, false));
    assert!(gen.can_ask(4, true));
    assert!(gen.can_generate(2));
    assert!(!gen.can_generate(3));
    assert!(!gen.can_generate(4));
    // size 3 may be asked for, but no form is there to fill it
    assert!(gen.can_ask(3, false));
    assert_eq!(gen.gen_expr(3, 1, false), None);
}

#[test]
fn a_fold_binds_1_and_2_and_holds_no_fold() {
    let p = problem(20, &["not", "plus", "fold"]);
    let mut gen = RandomGenState::new(p, 77);
    let mut folds = 0;
    for _ in 0..500 {
        let prog = gen.gen_program(20).unwrap();
        let mut stack = vec![&*prog.expr];
        while let Some(e) = stack.pop() {
            match e {
                Expr::Fold { foldee, init, next_id, accum_id, body } => {
                    folds += 1;
                    assert_eq!((*next_id, *accum_id), (1, 2));
                    assert!(!has_fold(foldee) && !has_fold(init) && !has_fold(body));
                }
                Expr::If0(c, t, f) => stack.extend([&**c, &**t, &**f]),
                Expr::Op1(_, a) => stack.push(a),
                Expr::Op2(_, l, r) => stack.extend([&**l, &**r]),
                _ => {}
            }
        }
    }
    assert!(folds > 0);
}

#[test]
fn tfold_programs_have_the_fold_at_the_top() {
    let mut p = problem(12, &["and", "or", "plus", "xor", "fold"]);
    p.operators.tfold = true;
    let operators = p.operators;
    let mut gen = RandomGenState::new(p, 2013);
    for _ in 0..1000 {
        let prog = gen.gen_program(12).unwrap();
        assert_eq!(prog.len(), 12);
        let text = prog.to_str();
        assert!(text.starts_with("(lambda (c) (fold c 0 (lambda (a b) "));
        assert!(text.ends_with(")))"));
        let read = Parse::parse(&text.as_str()).unwrap();
        match (&*prog.expr, &*read.expr) {
            (
                Expr::Fold { foldee, init, next_id, accum_id, body },
                Expr::Fold { foldee: f2, init: i2, next_id: n2, accum_id: a2, body: b2 },
            ) => {
                assert_eq!(**foldee, Expr::Ident(2));
                assert_eq!(**init, Expr::Zero);
                assert_eq!((*next_id, *accum_id), (0, 1));
                // the program, the fold, its argument and its zero take 5 of 12
                assert_eq!(body.len(), 7);
                assert!(!has_fold(body));
                assert!(uses_only(body, &OperatorSet { fold: false, ..operators }));
                // read back, the names are numbered as they come
                assert_eq!(read.id, 0);
                assert_eq!(**f2, Expr::Ident(0));
                assert_eq!(**i2, Expr::Zero);
                assert_eq!((*n2, *a2), (1, 2));
                assert_eq!(b2.len(), 7);
                assert!(!has_fold(b2));
            }
            _ => panic!("no fold at the top"),
        }
        assert_eq!(read.len(), 12);
        for x in [0u64, 1, 0x0123456789abcdef, u64::MAX] {
            assert_eq!(read.eval(x), prog.eval(x));
        }
    }
}

#[test]
fn bonus_programs_are_an_if0_over_and() {
    let mut p = problem(19, &["if0", "and", "not", "shr4", "plus", "xor"]);
    p.operators.bonus = true;
    assert!(check_request(&p));
    let operators = p.operators;
    let mut gen = RandomGenState::new(p, 4);
    for _ in 0..500 {
        let prog = gen.gen_program(19).unwrap();
        assert_eq!(prog.len(), 19);
        assert_eq!(prog.id, 0);
        assert!(uses_only(&prog.expr, &operators));
        match &*prog.expr {
            Expr::If0(cond, then, other) => {
                match &**cond {
                    Expr::Op2(BinOp::And, partial, atom) => {
                        assert!(matches!(**partial, Expr::Op2(..)));
                        assert_eq!(atom.len(), 1);
                    }
                    _ => panic!("the condition is no and"),
                }
                assert!(then.len() >= 3 && other.len() >= 3);
                assert!(!has_if0(cond) && !has_if0(then) && !has_if0(other));
                assert!(!has_fold(&prog.expr));
            }
            _ => panic!("no if0 at the top"),
        }
        assert!(prog.is_closed());
    }
    // the operators are as they were
    assert_eq!(gen.operators, operators);
}

#[test]
fn loose_bonus_programs_are_an_if0_over_anything() {
    let mut p = problem(9, &["if0", "and", "not"]);
    p.operators.bonus = true;
    let mut gen = RandomGenState::new(p, 4);
    assert!(!gen.can_generate(9));
    gen.loose_bonus = true;
    assert!(gen.can_generate(9));
    for _ in 0..200 {
        let prog = gen.gen_program(9).unwrap();
        assert_eq!(prog.len(), 9);
        assert!(matches!(*prog.expr, Expr::If0(..)));
        assert!(!has_fold(&prog.expr));
    }
}

#[test]
fn requests_that_no_program_meets_are_refused() {
    assert!(!check_request(&problem(3, &[])));
    assert!(!check_request(&problem(30, &[])));
    assert!(check_request(&problem(3, &["not"])));
    assert!(!check_request(&problem(3, &["and"])));
    assert!(check_request(&problem(4, &["and"])));
    assert!(!check_request(&problem(5, &["and"])));
    assert!(check_request(&problem(5, &["if0"])));
    assert!(!check_request(&problem(6, &["if0"])));
    assert!(check_request(&problem(8, &["if0"])));
    assert!(check_request(&problem(6, &["fold"])));
    assert!(!check_request(&problem(7, &["fold"])));
    assert!(check_request(&problem(10, &["fold"])));
    assert!(!check_request(&problem(3, &["and", "if0"])));
    assert!(check_request(&problem(7, &["and", "if0"])));
    assert!(!check_request(&problem(7, &["if0", "fold"])));
    assert!(check_request(&problem(8, &["if0", "fold"])));
    assert!(!check_request(&problem(13, &["and", "or", "plus", "xor", "fold"])));
    assert!(check_request(&problem(12, &["and", "or", "plus", "xor", "fold"])));
    let mut odd_body = problem(11, &["and"]);
    odd_body.operators.tfold = true;
    assert!(!check_request(&odd_body));
    odd_body.size = 12;
    assert!(check_request(&odd_body));
}

#[test]
fn the_sizes_that_can_be_filled() {
    // (unary, binary, if0, fold) and the sizes from 1 to 12 that can be had
    let table: [((bool, bool, bool, bool), &[usize]); 9] = [
        ((true, false, false, false), &[1, 2, 3, 4, 5, 6, 7, 8, 9, 10, 11, 12]),
        ((false, false, false, false), &[1]),
        ((false, true, false, false), &[1, 3, 5, 7, 9, 11]),
        ((false, true, false, true), &[1, 3, 5, 7, 9, 11]),
        ((false, true, true, false), &[1, 3, 4, 5, 6, 7, 8, 9, 10, 11, 12]),
        ((false, true, true, true), &[1, 3, 4, 5, 6, 7, 8, 9, 10, 11, 12]),
        ((false, false, true, false), &[1, 4, 7, 10]),
        ((false, false, false, true), &[1, 5, 9]),
        ((false, false, true, true), &[1, 4, 5, 7, 8, 9, 10, 11, 12]),
    ];
    for ((unary, binary, if0, fold), sizes) in table {
        for size in 0..=12usize {
            assert_eq!(is_fillable(size, unary, binary, if0, fold), sizes.contains(&size));
        }
    }
}

#[test]
fn requests_without_room_are_refused() {
    assert!(check_request(&problem(2, &[])));
    assert!(!check_request(&problem(1, &["not"])));
    assert!(!check_request(&problem(0, &["not"])));
    let mut tfold = problem(5, &["and"]);
    tfold.operators.tfold = true;
    assert!(!check_request(&tfold));
    tfold.size = 6;
    assert!(check_request(&tfold));
    tfold.size = 7;
    assert!(!check_request(&tfold));
    let mut bonus = problem(12, &["if0", "and", "not"]);
    bonus.operators.bonus = true;
    assert!(!check_request(&bonus));
    bonus.size = 13;
    assert!(check_request(&bonus));
    let mut no_and = problem(13, &["if0", "or", "not"]);
    no_and.operators.bonus = true;
    assert!(!check_request(&no_and));
    let mut no_if0 = problem(13, &["and", "not"]);
    no_if0.operators.bonus = true;
    assert!(!check_request(&no_if0));
    let mut no_unary = problem(13, &["if0", "and"]);
    no_unary.operators.bonus = true;
    assert!(!check_request(&no_unary));
}

#[test]
fn blocked_sizes_for_every_set_of_operators() {
    // (have_unaops, have_if0, foldable) and whether 2, 4 and 6 are blocked
    let table = [
        ((true, true, true), [false, false, false]),
        ((true, true, false), [false, false, false]),
        ((true, false, true), [false, false, false]),
        ((true, false, false), [false, false, false]),
        ((false, true, true), [true, true, true]),
        ((false, true, false), [true, false, true]),
        ((false, false, true), [true, true, true]),
        ((false, false, false), [true, true, true]),
    ];
    for ((unaops, if0, foldable), blocked) in table {
        for (choice, want) in [2usize, 4, 6].into_iter().zip(blocked) {
            assert_eq!(is_blocked(choice, unaops, foldable || if0, foldable), want);
        }
        // without unary operators, if0 and fold every even size is blocked, and no odd one
        for choice in 1..=30usize {
            let got = is_blocked(choice, unaops, foldable || if0, foldable);
            if unaops {
                assert!(!got);
            } else if !if0 && !foldable {
                assert_eq!(got, choice % 2 == 0);
            } else {
                assert_eq!(got, choice == 2 || choice == 6 || (foldable && choice == 4));
            }
        }
    }
}

#[test]
fn a_blocked_size_moves_by_one() {
    for choice in [2usize, 4, 6] {
        assert_eq!(nudge(choice, 10, true), choice + 1);
        assert_eq!(nudge(choice, 10, false), choice - 1);
        // without room above it goes down, whatever the coin
        assert_eq!(nudge(choice, choice, true), choice - 1);
        assert_eq!(nudge(choice, choice, false), choice - 1);
    }
}

#[test]
fn left_over_sizes_for_every_set_of_operators() {
    for unaops in [true, false] {
        for if0 in [true, false] {
            for foldable in [true, false] {
                let mut ops: Vec<&str> = vec!["and"];
                if unaops {
                    ops.push("not");
                }
                if if0 {
                    ops.push("if0");
                }
                let gen = RandomGenState::new(problem(10, &ops), 1);
                for choice in 1..=12usize {
                    let want = if unaops {
                        true
                    } else if !if0 && !foldable && choice % 2 == 0 {
                        false
                    } else {
                        choice != 6 && choice != 2
                    };
                    assert_eq!(gen.check_size(choice, foldable), want);
                }
            }
        }
    }
}

#[test]
fn gen_size_keeps_to_the_space_and_to_the_rules() {
    for (ops, foldable) in [
        (vec!["not", "and"], false),
        (vec!["and"], false),
        (vec!["and", "if0"], false),
        (vec!["and"], true),
        (vec!["and", "if0"], true),
    ] {
        let mut gen = RandomGenState::new(problem(10, &ops), 21);
        let unaops = ops.contains(&"not");
        let if0 = ops.contains(&"if0");
        for space in 1..=12usize {
            for _ in 0..100 {
                let size = gen.gen_size(space, foldable);
                assert!(1 <= size && size <= space);
                assert!(!is_blocked(size, unaops, foldable || if0, foldable));
            }
        }
    }
}

#[test]
fn weights_count_the_splits() {
    let gen = RandomGenState::new(problem(30, &["not", "shl1", "and", "or", "xor", "if0"]), 1);
    assert_eq!(gen.weights(2, true), Weights { op1: 2, op2: 0, if0: 0, fold: 0 });
    assert_eq!(gen.weights(3, true), Weights { op1: 2, op2: 3, if0: 0, fold: 0 });
    assert_eq!(gen.weights(4, true), Weights { op1: 2, op2: 3, if0: 1, fold: 0 });
    // size 5: 4 spaces, 3 splits in two, 4 * 3 / 2 splits in three
    assert_eq!(gen.weights(5, true), Weights { op1: 2, op2: 9, if0: 6, fold: 6 });
    assert_eq!(gen.weights(5, false), Weights { op1: 2, op2: 9, if0: 6, fold: 0 });
    assert_eq!(gen.weights(11, true), Weights { op1: 2, op2: 27, if0: 45, fold: 45 });

    let bare = RandomGenState::new(problem(30, &["and", "plus"]), 1);
    assert_eq!(bare.weights(2, false), Weights { op1: 0, op2: 0, if0: 0, fold: 0 });
    assert_eq!(bare.weights(3, false), Weights { op1: 0, op2: 2, if0: 0, fold: 0 });
    assert_eq!(bare.weights(4, true), Weights { op1: 0, op2: 0, if0: 0, fold: 0 });
    assert_eq!(bare.weights(5, true), Weights { op1: 0, op2: 6, if0: 0, fold: 0 });
    assert_eq!(bare.weights(6, true), Weights { op1: 0, op2: 0, if0: 0, fold: 0 });
    assert_eq!(bare.weights(7, true), Weights { op1: 0, op2: 10, if0: 0, fold: 15 });
    assert_eq!(bare.weights(8, true), Weights { op1: 0, op2: 0, if0: 0, fold: 0 });
    assert_eq!(bare.weights(9, true), Weights { op1: 0, op2: 14, if0: 0, fold: 28 });

    let with_if0 = RandomGenState::new(problem(30, &["and", "if0"]), 1);
    assert_eq!(with_if0.weights(4, false), Weights { op1: 0, op2: 0, if0: 1, fold: 0 });
    assert_eq!(with_if0.weights(5, true), Weights { op1: 0, op2: 3, if0: 0, fold: 0 });
    assert_eq!(with_if0.weights(6, true), Weights { op1: 0, op2: 4, if0: 0, fold: 0 });
    assert_eq!(with_if0.weights(7, true), Weights { op1: 0, op2: 5, if0: 15, fold: 15 });
    assert_eq!(with_if0.weights(8, true), Weights { op1: 0, op2: 6, if0: 21, fold: 21 });
    assert_eq!(with_if0.weights(10, true), Weights { op1: 0, op2: 8, if0: 36, fold: 36 });
}

#[test]
fn the_choices_are_the_operators_in_their_order() {
    let gen = RandomGenState::new(problem(10, &["plus", "shr16", "and", "not", "shr1"]), 1);
    assert_eq!(gen.op1_choices, vec![UnaOp::Not, UnaOp::Shr1, UnaOp::Shr16]);
    assert_eq!(gen.op1_len, 3);
    assert_eq!(gen.op2_choices, vec![BinOp::And, BinOp::Plus]);
    assert_eq!(gen.op2_len, 2);
    let mut other = gen.fork(9);
    assert_eq!(other.op1_choices, gen.op1_choices);
    assert_eq!(other.op2_choices, gen.op2_choices);
    assert_eq!(other.operators, gen.operators);
    other.reset(problem(10, &["xor"]));
    assert_eq!(other.op1_choices, vec![]);
    assert_eq!(other.op2_choices, vec![BinOp::Xor]);
}

#[test]
fn equal_seeds_give_equal_programs() {
    let ops = ["not", "shl1", "and", "plus", "if0", "fold"];
    let mut a = RandomGenState::new(problem(20, &ops), 31337);
    let mut b = RandomGenState::new(problem(20, &ops), 31337);
    let mut c = RandomGenState::new(problem(20, &ops), 31338);
    let mut differs = false;
    for _ in 0..50 {
        let p: Option<Program> = a.gen_program(20);
        assert_eq!(p, b.gen_program(20));
        differs = differs || p != c.gen_program(20);
    }
    assert!(differs);
}

#[test]
fn the_first_draw_picks_the_form() {
    let ops = ["not", "shl1", "and", "or", "xor", "if0"];
    let mut gen = RandomGenState::new(problem(30, &ops), 606);
    for size in [2usize, 3, 4, 5, 9, 14] {
        for foldable in [false, true] {
            for _ in 0..200 {
                let w = gen.weights(size, foldable);
                let total = (w.op1 + w.op2 + w.if0 + w.fold) as u64;
                let mut stream = gen.rng;
                let n = (stream.next_u64() % total) as usize;
                let e = gen.gen_expr(size, 1, foldable).unwrap();
                if n < w.op1 {
                    match e {
                        Expr::Op1(op, _) => assert_eq!(op, gen.op1_choices[n]),
                        _ => panic!("no unary operator"),
                    }
                } else if n < w.op1 + w.op2 {
                    match e {
                        Expr::Op2(op, _, _) => {
                            if size == 3 {
                                assert_eq!(op, gen.op2_choices[n - w.op1]);
                            }
                        }
                        _ => panic!("no binary operator"),
                    }
                } else if n < w.op1 + w.op2 + w.if0 {
                    assert!(matches!(e, Expr::If0(..)));
                } else {
                    assert!(foldable);
                    assert!(matches!(e, Expr::Fold { .. }));
                }
            }
        }
    }
}

#[test]
fn the_first_draw_picks_the_atom() {
    let mut gen = RandomGenState::new(problem(30, &["not"]), 17);
    for idents in 0..4usize {
        for _ in 0..100 {
            let mut stream = gen.rng;
            let choice = (stream.next_u64() % (2 + idents as u64)) as usize;
            let want = match choice {
                0 => Expr::Zero,
                1 => Expr::One,
                _ => Expr::Ident(choice - 2),
            };
            assert_eq!(gen.gen_expr(1, idents, false), Some(want));
            assert_eq!(gen.rng, stream);
        }
    }
}

#[test]
fn binary_operators_alone_fill_every_odd_size() {
    let mut gen = RandomGenState::new(problem(30, &["and", "plus"]), 23);
    for size in (1..=29usize).step_by(2) {
        for _ in 0..50 {
            let e = gen.gen_expr(size, 2, false).unwrap();
            assert_eq!(e.len() as usize, size);
        }
    }
    assert!(!gen.can_ask(2, false));
    assert!(!gen.can_ask(4, false));
    assert_eq!(gen.gen_expr(6, 2, false), None);
}
