use squiggle::eval::Eval;
use squiggle::gen::{check_request, RandomGenState};
use squiggle::program::{BinOp, Expr, OperatorSet, Program, UnaOp};
use squiggle::search::{
    satisfies, GenMsg, Phase, Poll, RandomGen, Worker, CHECK_EVERY, CLOCK_EVERY,
};
use squiggle::webapi::Problem;

fn problem(size: u8, ops: &[&str]) -> Problem {
    let mut opset = OperatorSet::new();
    opset.add(ops.iter().map(|s| s.to_string()).collect());
    Problem { id: "p".to_string(), size, operators: opset }
}

fn shift_and_add() -> Program {
    Program::new(
        0,
        Box::new(Expr::Op2(
            BinOp::Plus,
            Box::new(Expr::Op1(UnaOp::Shl1, Box::new(Expr::Ident(0)))),
            Box::new(Expr::Ident(0)),
        )),
    )
}

fn pairs_of(p: &Program, inputs: &[u64]) -> Vec<(u64, u64)> {
    inputs.iter().map(|&x| (x, p.eval(x))).collect()
}

#[test]
fn satisfies_tests_every_pair() {
    let p = shift_and_add();
    assert!(satisfies(&p, &vec![]));
    assert!(satisfies(&p, &vec![(10, 30), (0, 0), (1, 3)]));
    assert!(!satisfies(&p, &vec![(10, 30), (0, 1), (1, 3)]));
    assert!(!satisfies(&p, &vec![(10, 30), (0, 0), (1, 4)]));
}

#[test]
fn a_candidate_meets_every_pair() {
    let hidden = shift_and_add();
    let pairs = pairs_of(&hidden, &[0, 1, 2, 3, 10, 0xffff, u64::MAX, 0x8000_0000_0000_0000]);
    let mut gen = RandomGen::new(problem(5, &["plus", "shl1"]), pairs.clone(), 42);
    for _ in 0..5 {
        let found = gen.next(1_000_000).unwrap();
        assert_eq!(found.len(), 5);
        for &(x, y) in &pairs {
            assert_eq!(found.eval(x), y);
        }
        assert_eq!(gen.phase, Phase::Idle);
        assert_eq!(gen.constraints, pairs);
    }
}

#[test]
fn a_candidate_for_more_pairs_meets_the_pairs_before() {
    let hidden = shift_and_add();
    let earlier = pairs_of(&hidden, &[1, 2, 3]);
    let added = pairs_of(&hidden, &[0x10, 0xff00, u64::MAX]);
    let mut gen = RandomGen::new(problem(5, &["plus", "shl1"]), earlier.clone(), 9);
    gen.more_constraints(added.clone());
    let mut all = earlier.clone();
    all.extend(added.iter().cloned());
    assert_eq!(gen.constraints, all);
    let found = gen.next(1_000_000).unwrap();
    assert!(satisfies(&found, &all));
    assert!(satisfies(&found, &earlier));
    assert!(satisfies(&found, &added));
}

#[test]
fn without_a_budget_there_is_no_candidate() {
    let mut gen = RandomGen::new(problem(5, &["plus", "shl1"]), vec![], 42);
    assert_eq!(gen.next(0), None);
    assert!(gen.next(1).is_some());
}

#[test]
fn pairs_that_no_program_meets_use_the_budget_up() {
    // no program gives two outputs on one input
    let mut gen = RandomGen::new(problem(4, &["not", "and"]), vec![(1, 1), (1, 2)], 42);
    assert_eq!(gen.next(50_000), None);
    assert_eq!(gen.phase, Phase::Idle);
}

#[test]
fn a_blank_coordinator_waits_for_its_problem() {
    let mut gen = RandomGen::blank(3);
    assert_eq!(gen.phase, Phase::Idle);
    assert_eq!(gen.problem.size, 3);
    assert_eq!(gen.problem.id, "");
    assert_eq!(gen.problem.operators, OperatorSet::new());
    assert_eq!(gen.constraints, vec![]);
    // it has no problem yet: size 3 without operators is none
    assert!(!gen.has_problem);
    assert!(!check_request(&gen.problem));
    let p = problem(2, &[]);
    assert!(check_request(&p));
    gen.reset(p, vec![(7, 7), (9, 9)]);
    assert!(gen.has_problem);
    let found = gen.next(1000).unwrap();
    assert_eq!(found, Program::new(0, Box::new(Expr::Ident(0))));
}

#[test]
fn the_identity_is_the_one_program_of_size_2_that_gives_5_on_5() {
    for seed in 0..20 {
        let mut gen = RandomGen::new(problem(2, &[]), vec![(5, 5)], seed);
        let found = gen.next(1000).unwrap();
        assert_eq!(found, Program::new(0, Box::new(Expr::Ident(0))));
        assert_eq!(found.to_str(), "(lambda (a) a)");
    }
}

#[test]
fn next_gives_the_first_candidate_of_the_worker_that_meets_the_pairs() {
    let hidden = shift_and_add();
    let pairs = pairs_of(&hidden, &[1, 2, 3, 0xffff]);
    let mut gen = RandomGen::new(problem(5, &["plus", "shl1"]), pairs.clone(), 77);
    // the worker of `next` is seeded with the next word of the coordinator
    let mut stream = gen.gen.rng;
    let mut worker_gen = gen.gen.fork(stream.next_u64());
    let mut first = None;
    let mut drawn = 0u64;
    while first.is_none() {
        drawn += 1;
        if let Some(p) = worker_gen.gen_program(5) {
            if satisfies(&p, &pairs) {
                first = Some(p);
            }
        }
    }
    let mut short = RandomGen::new(problem(5, &["plus", "shl1"]), pairs.clone(), 77);
    assert_eq!(gen.next(1_000_000), first);
    assert_eq!(gen.gen.rng, stream);
    // a budget that ends before that candidate gives it all the same, or nothing
    if drawn > 1 && drawn < 16000 {
        assert_eq!(short.next(drawn - 1), first);
    }
}

#[test]
fn a_worker_stops_before_every_16384th_candidate() {
    assert_eq!(CHECK_EVERY, 16384);
    assert_eq!(CLOCK_EVERY, 1_000_000);
    let p = problem(4, &["not", "and"]);
    let gen = RandomGenState::new(p, 1);
    // no program meets both pairs, so the worker never finds one
    let mut worker = Worker::new(gen, vec![(1, 1), (1, 2)], 4);
    assert_eq!(worker.until_stop, CHECK_EVERY - 1);
    let (poll, drawn) = worker.run();
    assert_eq!(poll, Poll::CheckStop);
    assert_eq!(drawn, CHECK_EVERY - 1);
    assert_eq!(worker.until_stop, CHECK_EVERY);
    let mut total = drawn as u64;
    let mut clocks = 0;
    let mut stops = 1;
    while total < 2_100_000 {
        let before = worker.until_stop;
        let (poll, drawn) = worker.run();
        assert!(drawn <= CHECK_EVERY);
        assert!(drawn <= before);
        total += drawn as u64;
        match poll {
            Poll::CheckStop => {
                stops += 1;
                // the flag is due before the candidates 16384, 32768, ..
                assert_eq!((total + 1) % CHECK_EVERY as u64, 0);
            }
            Poll::CheckClock => {
                clocks += 1;
                // the clock is due after the candidates 1000000, 2000000, ..
                assert_eq!(total, clocks * CLOCK_EVERY as u64);
            }
            Poll::Found(_) => panic!("nothing can be found"),
        }
    }
    assert_eq!(clocks, 2);
    assert_eq!(stops, (total + 1) / CHECK_EVERY as u64);
    assert!(!worker.done);
}

#[test]
fn a_worker_finds_the_first_candidate_where_nothing_is_asked() {
    let gen = RandomGenState::new(problem(7, &["shr4", "xor"]), 8);
    let mut worker = Worker::new(gen, vec![], 7);
    let (poll, drawn) = worker.run();
    assert_eq!(drawn, 1);
    assert!(worker.done);
    match poll {
        Poll::Found(p) => assert_eq!(p.len(), 7),
        _ => panic!("the first candidate meets no pair at all"),
    }
}

#[test]
fn the_time_is_up_above_the_timeout_only() {
    assert!(!Worker::timed_out(0, 0));
    assert!(!Worker::timed_out(59, 60));
    assert!(!Worker::timed_out(60, 60));
    assert!(Worker::timed_out(61, 60));
}

#[test]
fn workers_have_their_own_streams_and_the_pairs_of_the_moment() {
    let hidden = shift_and_add();
    let pairs = pairs_of(&hidden, &[1, 2, 3]);
    let mut gen = RandomGen::new(problem(5, &["plus", "shl1"]), pairs.clone(), 42);
    let mut workers = gen.spawn(&vec![11, 22, 33]);
    assert_eq!(gen.phase, Phase::Generating);
    assert_eq!(workers.len(), 3);
    for (w, seed) in workers.iter().zip([11u64, 22, 33]) {
        assert_eq!(w.constraints, pairs);
        assert_eq!(w.size, 5);
        assert_eq!(w.gen.rng, squiggle::rng::XorShiftRng::from_seed(seed));
        assert_eq!(w.gen.operators, gen.gen.operators);
        assert!(!w.done);
    }
    // pairs that come now wait for the end of the search
    let late = pairs_of(&hidden, &[100]);
    gen.more_constraints(late.clone());
    assert_eq!(gen.constraints, pairs);
    assert_eq!(gen.queued, late);
    for w in workers.iter_mut() {
        loop {
            if let (Poll::Found(p), _) = w.run() {
                assert!(satisfies(&p, &pairs));
                break;
            }
        }
    }
    gen.finish();
    assert_eq!(gen.phase, Phase::Idle);
    let mut all = pairs.clone();
    all.extend(late);
    assert_eq!(gen.constraints, all);
    assert_eq!(gen.queued, vec![]);
}

#[test]
fn messages_drive_the_coordinator() {
    let mut gen = RandomGen::blank(1);
    let none = gen.handle(GenMsg::Reset(problem(5, &["plus", "shl1"]), vec![(1, 3)]));
    assert!(none.is_empty());
    assert_eq!(gen.problem.size, 5);
    assert_eq!(gen.constraints, vec![(1, 3)]);
    let none = gen.handle(GenMsg::MoreConstraints(vec![(2, 6)]));
    assert!(none.is_empty());
    assert_eq!(gen.constraints, vec![(1, 3), (2, 6)]);
    let workers = gen.handle(GenMsg::Generate(vec![5, 6]));
    assert_eq!(workers.len(), 2);
    assert_eq!(gen.phase, Phase::Generating);
    let none = gen.handle(GenMsg::MoreConstraints(vec![(3, 9)]));
    assert!(none.is_empty());
    assert_eq!(gen.constraints, vec![(1, 3), (2, 6)]);
    gen.finish();
    assert_eq!(gen.constraints, vec![(1, 3), (2, 6), (3, 9)]);
    let none = gen.handle(GenMsg::Exit);
    assert!(none.is_empty());
    assert_eq!(gen.phase, Phase::Terminated);
}

#[test]
fn equal_seeds_give_equal_candidates() {
    let hidden = shift_and_add();
    let pairs = pairs_of(&hidden, &[1, 2, 3, 4, 5]);
    let mut a = RandomGen::new(problem(5, &["plus", "shl1", "not"]), pairs.clone(), 17);
    let mut b = RandomGen::new(problem(5, &["plus", "shl1", "not"]), pairs, 17);
    for _ in 0..5 {
        assert_eq!(a.next(1_000_000), b.next(1_000_000));
    }
}

#[test]
fn a_worker_counts_the_candidates_since_the_stop_flag_was_due() {
    let gen = RandomGenState::new(problem(4, &["not", "and"]), 1);
    let mut worker = Worker::new(gen, vec![(1, 1), (1, 2)], 4);
    assert_eq!(worker.since_stop, 0);
    let mut total = 0u64;
    for _ in 0..200 {
        let before = worker.since_stop;
        let (poll, drawn) = worker.run();
        total += drawn as u64;
        match poll {
            Poll::CheckStop => assert_eq!(worker.since_stop, 0),
            _ => assert_eq!(worker.since_stop, before + drawn),
        }
        assert!(worker.since_stop + worker.until_stop <= CHECK_EVERY);
    }
    assert!(total > 1_000_000);
}
