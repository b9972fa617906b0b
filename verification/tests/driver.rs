use squiggle::driver::{pair_up, Driver, Outcome, Reply, Request, Stage, BATCH, MAX_ERRORS};
use squiggle::eval::Eval;
use squiggle::parse::Parse;
use squiggle::program::{BinOp, Expr, OperatorSet, Program, UnaOp};
use squiggle::rng::XorShiftRng;
use squiggle::gen::check_request;
use squiggle::search::RandomGen;
use squiggle::webapi::{FakeApi, GuessResult, Problem, TrainOperator};

#[test]
fn pairs_go_as_far_as_both_lists() {
    assert_eq!(pair_up(&vec![1, 2, 3], &vec![10, 20, 30]), vec![(1, 10), (2, 20), (3, 30)]);
    assert_eq!(pair_up(&vec![1, 2, 3], &vec![10]), vec![(1, 10)]);
    assert_eq!(pair_up(&vec![1], &vec![10, 20]), vec![(1, 10)]);
    assert_eq!(pair_up(&vec![], &vec![10, 20]), vec![]);
}

#[test]
fn the_first_request_is_for_50_outputs() {
    assert_eq!(BATCH, 50);
    let (driver, request) = Driver::start(5);
    let inputs = XorShiftRng::from_seed(5).gen_words(50);
    assert_eq!(request, Request::Eval(inputs.clone()));
    assert_eq!(driver.stage, Stage::Seeding(inputs));
    assert_eq!(driver.errors, 0);
}

#[test]
fn the_first_outputs_seed_the_search() {
    let (mut driver, request) = Driver::start(5);
    let inputs = match request {
        Request::Eval(inputs) => inputs,
        _ => panic!("no inputs"),
    };
    let outputs: Vec<u64> = inputs.iter().map(|x| x ^ 1).collect();
    let want: Vec<(u64, u64)> = inputs.iter().map(|&x| (x, x ^ 1)).collect();
    assert_eq!(driver.step(Reply::Outputs(Some(outputs))), Request::Reset(want));
    assert_eq!(driver.stage, Stage::Searching);
}

#[test]
fn without_outputs_the_work_ends() {
    let (mut driver, _) = Driver::start(5);
    assert_eq!(driver.step(Reply::Outputs(None)), Request::Stop(Outcome::NoOutputs));
    assert_eq!(driver.stage, Stage::Done(Outcome::NoOutputs));
}

fn searching() -> Driver {
    let (mut driver, _) = Driver::start(5);
    driver.step(Reply::Outputs(Some(vec![])));
    driver
}

#[test]
fn a_candidate_is_sent_as_its_text() {
    let mut driver = searching();
    let candidate = Program::new(0, Box::new(Expr::Op1(UnaOp::Not, Box::new(Expr::Ident(0)))));
    assert_eq!(
        driver.step(Reply::Candidate(Some(candidate))),
        Request::Guess("(lambda (a) (not a))".to_string())
    );
    assert_eq!(driver.stage, Stage::Guessing);
}

#[test]
fn without_a_candidate_the_problem_has_timed_out() {
    let mut driver = searching();
    assert_eq!(driver.step(Reply::Candidate(None)), Request::Stop(Outcome::TimedOut));
    assert_eq!(driver.stage, Stage::Done(Outcome::TimedOut));
}

fn guessing() -> Driver {
    let mut driver = searching();
    driver.step(Reply::Candidate(Some(Program::new(0, Box::new(Expr::Zero)))));
    driver
}

#[test]
fn a_win_ends_the_work() {
    let mut driver = guessing();
    assert_eq!(driver.step(Reply::Judged(GuessResult::Win)), Request::Stop(Outcome::Solved));
    assert_eq!(driver.stage, Stage::Done(Outcome::Solved));
}

#[test]
fn a_mismatch_brings_fresh_inputs_and_its_own_pair() {
    let mut driver = guessing();
    let mut rng = driver.rng;
    let fresh = rng.gen_words(50);
    let request = driver.step(Reply::Judged(GuessResult::Mismatch(7, 70, 71)));
    assert_eq!(request, Request::Eval(fresh.clone()));
    assert_eq!(driver.stage, Stage::Refining { input: 7, output: 70, inputs: fresh.clone() });
    assert_eq!(driver.rng, rng);
    let outputs: Vec<u64> = fresh.iter().map(|x| x + 1).collect();
    let mut want: Vec<(u64, u64)> = fresh.iter().map(|&x| (x, x + 1)).collect();
    want.push((7, 70));
    assert_eq!(want.len(), 51);
    assert_eq!(driver.step(Reply::Outputs(Some(outputs))), Request::More(want));
    assert_eq!(driver.stage, Stage::Searching);
}

#[test]
fn three_errors_in_a_row_end_the_work() {
    assert_eq!(MAX_ERRORS, 3);
    let mut driver = guessing();
    let error = || Reply::Judged(GuessResult::Error("no".to_string()));
    let candidate = || Reply::Candidate(Some(Program::new(0, Box::new(Expr::Zero))));
    assert_eq!(driver.step(error()), Request::Retry);
    assert_eq!(driver.errors, 1);
    driver.step(candidate());
    assert_eq!(driver.step(error()), Request::Retry);
    assert_eq!(driver.errors, 2);
    driver.step(candidate());
    assert_eq!(driver.step(error()), Request::Stop(Outcome::Abandoned));
    assert_eq!(driver.stage, Stage::Done(Outcome::Abandoned));
}

#[test]
fn a_mismatch_between_errors_starts_the_count_again() {
    let mut driver = guessing();
    let error = || Reply::Judged(GuessResult::Error("no".to_string()));
    let candidate = || Reply::Candidate(Some(Program::new(0, Box::new(Expr::Zero))));
    assert_eq!(driver.step(error()), Request::Retry);
    driver.step(candidate());
    assert_eq!(driver.step(error()), Request::Retry);
    driver.step(candidate());
    driver.step(Reply::Judged(GuessResult::Mismatch(1, 2, 3)));
    assert_eq!(driver.errors, 0);
    driver.step(Reply::Outputs(Some(vec![0; 50])));
    driver.step(candidate());
    assert_eq!(driver.step(error()), Request::Retry);
    assert_eq!(driver.errors, 1);
}

/// Runs the refinement loop against an oracle in this process. Returns how
/// it ended, and how many guesses were made.
fn solve(problem: Problem, api: &mut FakeApi, gen: &mut RandomGen, seed: u64) -> (Outcome, u32) {
    let (mut driver, mut request) = Driver::start(seed);
    let mut guesses = 0;
    loop {
        let reply = match request {
            Request::Eval(inputs) => Reply::Outputs(api.eval(problem.clone(), inputs)),
            Request::Reset(pairs) => {
                assert!(check_request(&problem));
                gen.reset(problem.clone(), pairs);
                Reply::Candidate(gen.next(10_000_000))
            }
            Request::More(pairs) => {
                gen.more_constraints(pairs);
                Reply::Candidate(gen.next(10_000_000))
            }
            Request::Retry => Reply::Candidate(gen.next(10_000_000)),
            Request::Guess(text) => {
                guesses += 1;
                Reply::Judged(api.guess(problem.clone(), text))
            }
            Request::Stop(outcome) => return (outcome, guesses),
        };
        request = driver.step(reply);
    }
}

#[test]
fn the_identity_is_solved_with_one_guess() {
    let hidden = Parse::parse(&"(lambda (x) x)").unwrap();
    assert_eq!(hidden.len(), 2);
    assert_eq!(hidden.operators(), OperatorSet::new());
    let mut api = FakeApi::new(vec![hidden], 1);
    let mut gen = RandomGen::blank(2);
    assert!(api.has_programs());
    let tp = api.get_training(0, TrainOperator::Empty);
    assert!(!api.has_programs());
    assert_eq!(tp.challenge, "(lambda (a) a)");
    assert_eq!(tp.problem.id, "(lambda (a) a)");
    assert_eq!(tp.problem.size, 2);
    assert_eq!(tp.problem.operators, OperatorSet::new());
    assert_eq!(solve(tp.problem, &mut api, &mut gen, 3), (Outcome::Solved, 1));
}

#[test]
fn shift_and_add_is_solved_within_three_rounds() {
    let hidden = Parse::parse(&"(lambda (x) (plus (shl1 x) x))").unwrap();
    assert_eq!(hidden.len(), 5);
    assert_eq!(hidden.eval(10), 30);
    for seed in 0..10 {
        let mut api = FakeApi::new(vec![hidden.clone()], seed);
        let mut gen = RandomGen::blank(seed + 100);
        let tp = api.get_training(0, TrainOperator::Empty);
        assert_eq!(tp.problem.size, 5);
        assert_eq!(tp.problem.operators.to_str(), "shl1,plus");
        let (outcome, guesses) = solve(tp.problem, &mut api, &mut gen, seed + 200);
        assert_eq!(outcome, Outcome::Solved);
        assert!(guesses <= 3);
        // the pairs of the search are those of the hidden program
        assert!(gen.constraints.len() >= 50);
        for &(x, y) in &gen.constraints {
            assert_eq!(hidden.eval(x), y);
        }
    }
}

#[test]
fn a_fold_over_bytes_is_solved() {
    let hidden = Program::new(
        0,
        Box::new(Expr::Fold {
            foldee: Box::new(Expr::Ident(0)),
            init: Box::new(Expr::Zero),
            next_id: 1,
            accum_id: 2,
            body: Box::new(Expr::Op2(
                BinOp::Plus,
                Box::new(Expr::Ident(1)),
                Box::new(Expr::Ident(2)),
            )),
        }),
    );
    let mut api = FakeApi::new(vec![hidden.clone()], 4);
    let mut gen = RandomGen::blank(5);
    let tp = api.get_training(0, TrainOperator::Tfold);
    assert_eq!(tp.problem.size, 8);
    assert!(tp.problem.operators.tfold);
    assert_eq!(tp.problem.operators.to_str(), "tfold,plus");
    let (outcome, _) = solve(tp.problem, &mut api, &mut gen, 6);
    assert_eq!(outcome, Outcome::Solved);
}
