//! The problems that the oracle hands out, what it answers, and an oracle
//! that runs in this process over programs it is given.

use crate::eval::Eval;
use crate::parse::{parse_text, Parse, ParseError};
use crate::program::{names_of, OperatorSet, Program};
use crate::rng::XorShiftRng;
use crate::strings::str_eq;
use vstd::prelude::*;
use vstd::string::*;

verus! {

/// A problem: a hidden program of the given size over the given operators.
#[derive(Debug, PartialEq, Eq)]
pub struct Problem {
    pub id: String,
    pub size: u8,
    pub operators: OperatorSet,
}

impl Clone for Problem {
    fn clone(&self) -> (res: Self)
        ensures
            res == *self,
    {
        Problem { id: self.id.clone(), size: self.size, operators: self.operators }
    }
}

/// The kind of fold a training problem is asked to have.
#[derive(Clone, Copy, Debug, PartialEq, Eq, Structural)]
pub enum TrainOperator {
    Empty,
    Tfold,
    Fold,
}

/// A training problem: a problem and the program behind it.
#[derive(Debug, PartialEq, Eq)]
pub struct TrainProblem {
    pub challenge: String,
    pub problem: Problem,
}

/// A problem of the contest: whether it is solved, and the whole seconds
/// that are left for it once it has been started.
#[derive(Debug, PartialEq, Eq)]
pub struct RealProblem {
    pub problem: Problem,
    pub time_left: Option<u64>,
    pub solved: bool,
}

/// What the oracle says of a guess.
#[derive(Debug, PartialEq, Eq)]
pub enum GuessResult {
    /// The guess is right.
    Win,
    /// An input, what the hidden program gives on it, and what the guess gives.
    Mismatch(u64, u64, u64),
    /// The guess could not be judged.
    Error(String),
}

/// Which problems of the contest are taken up.
#[derive(Clone, Copy, Debug, PartialEq, Eq, Structural)]
pub enum ProblemFilter {
    All,
    Tfolded,
    Unfolded,
    Folded,
    Bonus,
    NoBonus,
}

/// How a problem of the contest stands.
#[derive(Clone, Copy, Debug, PartialEq, Eq, Structural)]
pub enum Standing {
    Solved,
    Unsolved,
    Failed,
    InProgress,
}

impl RealProblem {
    /// Whether the problem can still be solved: it is not solved, and time
    /// is left or the clock has not started.
    pub open spec fn open(self) -> bool {
        !self.solved && match self.time_left {
            Some(n) => n > 0,
            None => true,
        }
    }

    /// Whether `filter` lets the problem through.
    pub open spec fn fits(self, filter: ProblemFilter) -> bool {
        let ops = self.problem.operators;
        match filter {
            ProblemFilter::All => true,
            ProblemFilter::Tfolded => ops.tfold,
            ProblemFilter::Unfolded => !ops.fold && !ops.tfold && !ops.bonus,
            ProblemFilter::Folded => ops.fold,
            ProblemFilter::Bonus => ops.bonus,
            ProblemFilter::NoBonus => !ops.bonus,
        }
    }

    /// How the problem stands: solved; else not started, out of time, or running.
    pub open spec fn stands(self) -> Standing {
        if self.solved {
            Standing::Solved
        } else {
            match self.time_left {
                None => Standing::Unsolved,
                Some(n) => if n == 0 {
                    Standing::Failed
                } else {
                    Standing::InProgress
                },
            }
        }
    }

    /// Whether the problem is to be worked on: it can still be solved,
    /// `filter` lets it through, and its size is `min_size` at least.
    pub fn wanted(&self, filter: ProblemFilter, min_size: u8) -> (b: bool)
        ensures
            b == (self.open() && self.fits(filter) && self.problem.size >= min_size),
    {
        let open = !self.solved && match self.time_left {
            Some(n) => n > 0,
            None => true,
        };
        let ops = &self.problem.operators;
        let fits = match filter {
            ProblemFilter::All => true,
            ProblemFilter::Tfolded => ops.tfold,
            ProblemFilter::Unfolded => !ops.fold && !ops.tfold && !ops.bonus,
            ProblemFilter::Folded => ops.fold,
            ProblemFilter::Bonus => ops.bonus,
            ProblemFilter::NoBonus => !ops.bonus,
        };
        open && fits && self.problem.size >= min_size
    }

    /// How the problem stands.
    pub fn standing(&self) -> (s: Standing)
        ensures
            s == self.stands(),
    {
        if self.solved {
            Standing::Solved
        } else {
            match self.time_left {
                None => Standing::Unsolved,
                Some(n) => if n == 0 {
                    Standing::Failed
                } else {
                    Standing::InProgress
                },
            }
        }
    }

    /// Whether the problem comes before `other`: its size is smaller.
    pub fn lt(&self, other: &RealProblem) -> (b: bool)
        ensures
            b == (self.problem.size < other.problem.size),
    {
        self.problem.size < other.problem.size
    }
}

/// How many inputs the oracle of this process tries a guess on.
pub const GUESS_TRIALS: usize = 100000;

/// The last place at which `id` stands in `ids`.
pub open spec fn find_last(ids: Seq<Seq<char>>, id: Seq<char>) -> Option<nat>
    decreases ids.len(),
{
    if ids.len() == 0 {
        None
    } else if ids.last() == id {
        Some((ids.len() - 1) as nat)
    } else {
        find_last(ids.drop_last(), id)
    }
}

/// What is found is a place of `id`.
proof fn lemma_find_last(ids: Seq<Seq<char>>, id: Seq<char>)
    ensures
        match find_last(ids, id) {
            Some(i) => i < ids.len() && ids[i as int] == id,
            None => true,
        },
    decreases ids.len(),
{
    if ids.len() > 0 && ids.last() != id {
        lemma_find_last(ids.drop_last(), id);
    }
}

/// An oracle in this process: programs still to be handed out as
/// problems, and the programs it can judge, each under its identifier.
#[derive(Debug)]
pub struct FakeApi {
    pub programs: Vec<Program>,
    pub known: Vec<Program>,
    pub ids: Vec<String>,
    pub rng: XorShiftRng,
}

/// Whether `p` can be a hidden program: nothing in it is unbound, and its
/// size fits a problem.
pub open spec fn presentable(p: Program) -> bool {
    p.wf() && p.size() <= u8::MAX
}

/// The problem that `prog` is the hidden program of, and its text.
fn present(prog: &Program) -> (r: (String, Problem))
    requires
        presentable(*prog),
    ensures
        r.0@ == prog.text(),
        r.1.id@ == prog.text(),
        r.1.size == prog.size(),
        r.1.operators == OperatorSet::empty().with_program(*prog),
{
    let text = prog.to_str();
    let problem = Problem { id: text.clone(), size: prog.len(), operators: prog.operators() };
    (text, problem)
}

impl FakeApi {
    /// Whether every program has its identifier, nothing in a program
    /// that can be judged is unbound, and the programs still to be handed
    /// out can be problems.
    pub open spec fn wf(self) -> bool {
        &&& self.known@.len() == self.ids@.len()
        &&& forall|i: int| 0 <= i < self.known@.len() ==> (#[trigger] self.known@[i]).wf()
        &&& forall|i: int| 0 <= i < self.programs@.len() ==> presentable(#[trigger] self.programs@[i])
    }

    /// The program that is known under `id`: the last that was put there.
    pub open spec fn hidden(self, id: Seq<char>) -> Option<Program> {
        match find_last(names_of(self.ids@), id) {
            Some(i) => Some(self.known@[i as int]),
            None => None,
        }
    }

    /// An oracle that hands out `progs` one after the other, each known
    /// under its text. Its inputs for judging guesses come from `seed`.
    pub fn new(progs: Vec<Program>, seed: u64) -> (api: FakeApi)
        requires
            forall|i: int| 0 <= i < progs@.len() ==> presentable(#[trigger] progs@[i]),
        ensures
            api.wf(),
            api.programs == progs,
            api.known@ == progs@,
            api.ids@.len() == progs@.len(),
            forall|i: int| 0 <= i < progs@.len() ==> (#[trigger] api.ids@[i])@ == progs@[i].text(),
            api.rng == XorShiftRng::seeded(seed),
    {
        let mut known: Vec<Program> = Vec::new();
        let mut ids: Vec<String> = Vec::new();
        let mut i: usize = 0;
        while i < progs.len()
            invariant
                0 <= i <= progs@.len(),
                known@ == progs@.take(i as int),
                ids@.len() == i,
                forall|j: int| 0 <= j < i ==> (#[trigger] ids@[j])@ == progs@[j].text(),
            decreases progs@.len() - i,
        {
            known.push(progs[i].clone());
            ids.push(progs[i].to_str());
            assert(progs@.take(i + 1) == progs@.take(i as int).push(progs@[i as int]));
            i = i + 1;
        }
        assert(progs@.take(i as int) == progs@);
        FakeApi { programs: progs, known, ids, rng: XorShiftRng::from_seed(seed) }
    }

    /// Makes `prog` known under `id`, in place of what was known under it.
    pub fn add_prog(&mut self, id: String, prog: Program)
        requires
            old(self).wf(),
            prog.wf(),
        ensures
            final(self).wf(),
            final(self).programs == old(self).programs,
            final(self).rng == old(self).rng,
            final(self).hidden(id@) == Some(prog),
            forall|other: Seq<char>| other != id@ ==> final(self).hidden(other) == old(self).hidden(other),
    {
        self.known.push(prog);
        self.ids.push(id);
        proof {
            let before = names_of(old(self).ids@);
            let after = names_of(self.ids@);
            assert(after.drop_last() =~= before);
            assert(after.last() == id@);
            assert forall|other: Seq<char>| other != id@ implies self.hidden(other) == old(
                self,
            ).hidden(other) by {
                lemma_find_last(before, other);
            }
        }
    }

    /// The place of the program that is known under `id`.
    pub fn get_prog(&self, id: &str) -> (r: Option<usize>)
        requires
            self.wf(),
        ensures
            match r {
                Some(i) => find_last(names_of(self.ids@), id@) == Some(i as nat) && i
                    < self.known@.len(),
                None => find_last(names_of(self.ids@), id@) is None,
            },
    {
        let ghost names = names_of(self.ids@);
        let mut i: usize = self.ids.len();
        assert(names.take(i as int) =~= names);
        while i > 0
            invariant
                0 <= i <= self.ids@.len(),
                self.known@.len() == self.ids@.len(),
                names == names_of(self.ids@),
                find_last(names, id@) == find_last(names.take(i as int), id@),
            decreases i,
        {
            i = i - 1;
            proof {
                assert(names.take(i + 1).drop_last() =~= names.take(i as int));
                assert(names.take(i + 1).last() == self.ids@[i as int]@);
            }
            if str_eq(self.ids[i].as_str(), id) {
                return Some(i);
            }
        }
        None
    }

    /// Whether a program is left to hand out.
    pub fn has_programs(&self) -> (b: bool)
        ensures
            b == (self.programs@.len() > 0),
    {
        self.programs.len() > 0
    }

    /// Hands out the first program that is left as a training problem.
    pub fn get_training(&mut self, _size: u8, _operator: TrainOperator) -> (tp: TrainProblem)
        requires
            old(self).wf(),
            old(self).programs@.len() > 0,
        ensures
            final(self).wf(),
            final(self).programs@ == old(self).programs@.drop_first(),
            final(self).known == old(self).known,
            final(self).ids == old(self).ids,
            final(self).rng == old(self).rng,
            tp.challenge@ == old(self).programs@[0].text(),
            tp.problem.id@ == old(self).programs@[0].text(),
            tp.problem.size == old(self).programs@[0].size(),
            tp.problem.operators == OperatorSet::empty().with_program(old(self).programs@[0]),
    {
        let prog = self.programs.remove(0);
        assert(self.programs@ =~= old(self).programs@.drop_first());
        let (text, problem) = present(&prog);
        TrainProblem { challenge: text, problem }
    }

    /// Hands out every program that is left as a problem of the contest,
    /// unsolved and not started.
    pub fn get_problems(&mut self) -> (probs: Vec<RealProblem>)
        requires
            old(self).wf(),
        ensures
            final(self).wf(),
            final(self).programs@.len() == 0,
            final(self).known == old(self).known,
            final(self).ids == old(self).ids,
            final(self).rng == old(self).rng,
            probs@.len() == old(self).programs@.len(),
            forall|i: int|
                0 <= i < probs@.len() ==> {
                    let rp = #[trigger] probs@[i];
                    let prog = old(self).programs@[i];
                    &&& rp.problem.id@ == prog.text()
                    &&& rp.problem.size == prog.size()
                    &&& rp.problem.operators == OperatorSet::empty().with_program(prog)
                    &&& rp.time_left is None
                    &&& !rp.solved
                },
    {
        let mut probs: Vec<RealProblem> = Vec::new();
        let mut i: usize = 0;
        while i < self.programs.len()
            invariant
                *self == *old(self),
                self.wf(),
                0 <= i <= self.programs@.len(),
                probs@.len() == i,
                forall|j: int|
                    0 <= j < i ==> {
                        let rp = #[trigger] probs@[j];
                        let prog = self.programs@[j];
                        &&& rp.problem.id@ == prog.text()
                        &&& rp.problem.size == prog.size()
                        &&& rp.problem.operators == OperatorSet::empty().with_program(prog)
                        &&& rp.time_left is None
                        &&& !rp.solved
                    },
            decreases self.programs@.len() - i,
        {
            let (_, problem) = present(&self.programs[i]);
            probs.push(RealProblem { problem, time_left: None, solved: false });
            i = i + 1;
        }
        self.programs = Vec::new();
        probs
    }

    /// What the hidden program of `problem` gives on each of `inputs`. A
    /// program is known under the identifier of the problem.
    pub fn eval(&self, problem: Problem, inputs: Vec<u64>) -> (r: Option<Vec<u64>>)
        requires
            self.wf(),
            self.hidden(problem.id@) is Some,
        ensures
            r is Some,
            r->0@.len() == inputs@.len(),
            forall|i: int|
                0 <= i < inputs@.len() ==> #[trigger] r->0@[i] == self.hidden(
                    problem.id@,
                )->0.value(inputs@[i]),
    {
        let prog = match self.get_prog(problem.id.as_str()) {
            Some(i) => &self.known[i],
            None => unreached(),
        };
        let mut outs: Vec<u64> = Vec::new();
        let mut i: usize = 0;
        while i < inputs.len()
            invariant
                prog.wf(),
                0 <= i <= inputs@.len(),
                outs@.len() == i,
                forall|j: int| 0 <= j < i ==> #[trigger] outs@[j] == prog.value(inputs@[j]),
            decreases inputs@.len() - i,
        {
            outs.push(prog.eval(inputs[i]));
            i = i + 1;
        }
        Some(outs)
    }

    /// Judges the guess `program` for `problem`, under whose identifier a
    /// program is known, on `GUESS_TRIALS` inputs from the stream of this
    /// oracle. It is a win where the guess gives on each of them what the
    /// hidden program gives; else the first of them on which it does not
    /// comes back, with both outputs. The guess cannot be judged where it
    /// is no program, and where something in it is unbound.
    pub fn guess(&mut self, problem: Problem, program: String) -> (r: GuessResult)
        requires
            old(self).wf(),
            old(self).hidden(problem.id@) is Some,
        ensures
            final(self).wf(),
            final(self).programs == old(self).programs,
            final(self).known == old(self).known,
            final(self).ids == old(self).ids,
            match (old(self).hidden(problem.id@), parse_text(program@)) {
                (Some(theirs), Ok(ours)) => if ours.wf() {
                    match r {
                        GuessResult::Win => {
                            &&& final(self).rng == old(self).rng.after(2 * GUESS_TRIALS as nat)
                            &&& forall|k: nat|
                                k < GUESS_TRIALS ==> theirs.value(#[trigger] old(self).rng.draw(k))
                                    == ours.value(old(self).rng.draw(k))
                        },
                        GuessResult::Mismatch(x, expected, test) => {
                            &&& expected == theirs.value(x)
                            &&& test == ours.value(x)
                            &&& expected != test
                            &&& exists|k: nat|
                                k < GUESS_TRIALS && x == #[trigger] old(self).rng.draw(k)
                                    && final(self).rng == old(self).rng.after(2 * (k + 1))
                                    && forall|j: nat|
                                    j < k ==> theirs.value(#[trigger] old(self).rng.draw(j))
                                        == ours.value(old(self).rng.draw(j))
                        },
                        GuessResult::Error(_) => false,
                    }
                } else {
                    r is Error && final(self).rng == old(self).rng
                },
                _ => r is Error && final(self).rng == old(self).rng,
            },
    {
        let place = match self.get_prog(problem.id.as_str()) {
            Some(i) => i,
            None => unreached(),
        };
        let text = program.as_str();
        let parsed = match Parse::parse(&text) {
            Ok(p) => p,
            Err(_) => { return GuessResult::Error(String::from_str("malformed program")); },
        };
        if !parsed.is_closed() {
            return GuessResult::Error(String::from_str("unbound identifier"));
        }
        let mut k: usize = 0;
        while k < GUESS_TRIALS
            invariant
                self.wf(),
                self.programs == old(self).programs,
                self.known == old(self).known,
                self.ids == old(self).ids,
                place < self.known@.len(),
                old(self).hidden(problem.id@) == Some(self.known@[place as int]),
                parse_text(program@) == Ok::<Program, ParseError>(parsed),
                parsed.wf(),
                0 <= k <= GUESS_TRIALS,
                self.rng == old(self).rng.after(2 * k as nat),
                forall|j: nat|
                    j < k ==> self.known@[place as int].value(#[trigger] old(self).rng.draw(j))
                        == parsed.value(old(self).rng.draw(j)),
            decreases GUESS_TRIALS - k,
        {
            proof {
                old(self).rng.lemma_after_step(2 * k as nat);
                old(self).rng.lemma_after_step(2 * k as nat + 1);
            }
            let x = self.rng.next_u64();
            assert(x == old(self).rng.draw(k as nat));
            let test = parsed.eval(x);
            let expected = self.known[place].eval(x);
            if test != expected {
                proof {
                    let first = k as nat;
                    let theirs = self.known@[place as int];
                    assert(first < GUESS_TRIALS && x == old(self).rng.draw(first) && self.rng == old(
                        self,
                    ).rng.after(2 * (first + 1)) && forall|j: nat|
                        j < first ==> theirs.value(#[trigger] old(self).rng.draw(j))
                            == parsed.value(old(self).rng.draw(j)));
                }
                return GuessResult::Mismatch(x, expected, test);
            }
            k = k + 1;
        }
        GuessResult::Win
    }
}

impl FakeApi {
    /// Whether `tp` is the first program that `self` had left, handed out
    /// as a training problem, and `after` is `self` without that program:
    /// the text of the program is the challenge and the identifier, and
    /// the size and the operators are those of the program.
    pub open spec fn hands_out(self, after: FakeApi, tp: TrainProblem) -> bool {
        &&& after.wf()
        &&& after.programs@ == self.programs@.drop_first()
        &&& after.known == self.known
        &&& after.ids == self.ids
        &&& after.rng == self.rng
        &&& tp.challenge@ == self.programs@[0].text()
        &&& tp.problem.id@ == self.programs@[0].text()
        &&& tp.problem.size == self.programs@[0].size()
        &&& tp.problem.operators == OperatorSet::empty().with_program(self.programs@[0])
    }

    /// Whether `probs` are the programs that `self` had left, each handed
    /// out as a problem of the contest, unsolved and not started, and
    /// `after` is `self` with no program left.
    pub open spec fn lists(self, after: FakeApi, probs: Seq<RealProblem>) -> bool {
        &&& after.wf()
        &&& after.programs@.len() == 0
        &&& after.known == self.known
        &&& after.ids == self.ids
        &&& after.rng == self.rng
        &&& probs.len() == self.programs@.len()
        &&& forall|i: int|
            0 <= i < probs.len() ==> {
                let rp = #[trigger] probs[i];
                let prog = self.programs@[i];
                &&& rp.problem.id@ == prog.text()
                &&& rp.problem.size == prog.size()
                &&& rp.problem.operators == OperatorSet::empty().with_program(prog)
                &&& rp.time_left is None
                &&& !rp.solved
            }
    }

    /// Whether `r` is the answer to `inputs` for the problem with the
    /// identifier `id`: what the program known under it gives on each of them.
    pub open spec fn answers(self, id: Seq<char>, inputs: Seq<u64>, r: Option<Vec<u64>>) -> bool {
        &&& r is Some
        &&& r->0@.len() == inputs.len()
        &&& forall|i: int|
            0 <= i < inputs.len() ==> #[trigger] r->0@[i] == self.hidden(id)->0.value(inputs[i])
    }

    /// Whether `r` is the judgement of the guess `program` for the problem
    /// with the identifier `id`, and `after` is `self` after judging.
    ///
    /// The guess is tried on the first `GUESS_TRIALS` words of the stream
    /// of `self`. It is a win where it gives on each of them what the
    /// program known under `id` gives, and the stream has then gone past
    /// them all. Else it is a mismatch with the first of them on which the
    /// two differ and with both outputs, and the stream has gone past that
    /// word. It is an error, and the stream stays, where the guess is no
    /// program, and where something in the guess is unbound. Nothing but
    /// the stream changes. A program is known under `id`.
    pub open spec fn judges(
        self,
        after: FakeApi,
        id: Seq<char>,
        program: Seq<char>,
        r: GuessResult,
    ) -> bool {
        &&& after.wf()
        &&& after.programs == self.programs
        &&& after.known == self.known
        &&& after.ids == self.ids
        &&& match (self.hidden(id), parse_text(program)) {
            (Some(theirs), Ok(ours)) => if ours.wf() {
                match r {
                    GuessResult::Win => {
                        &&& after.rng == self.rng.after(2 * GUESS_TRIALS as nat)
                        &&& forall|k: nat|
                            k < GUESS_TRIALS ==> theirs.value(#[trigger] self.rng.draw(k))
                                == ours.value(self.rng.draw(k))
                    },
                    GuessResult::Mismatch(x, expected, test) => {
                        &&& expected == theirs.value(x)
                        &&& test == ours.value(x)
                        &&& expected != test
                        &&& exists|k: nat|
                            k < GUESS_TRIALS && x == #[trigger] self.rng.draw(k) && after.rng
                                == self.rng.after(2 * (k + 1)) && forall|j: nat|
                                j < k ==> theirs.value(#[trigger] self.rng.draw(j)) == ours.value(
                                    self.rng.draw(j),
                                )
                    },
                    GuessResult::Error(_) => false,
                }
            } else {
                r is Error && after.rng == self.rng
            },
            _ => r is Error && after.rng == self.rng,
        }
    }
}

/// An oracle, asked one thing at a time.
pub trait Api {
    /// Whether the oracle can be asked.
    spec fn ready(&self) -> bool;

    /// Whether the oracle has a training problem to hand out.
    spec fn can_train(&self) -> bool;

    /// Whether the oracle can be asked about `problem`.
    spec fn serves(&self, problem: Problem) -> bool;

    fn get_training_blocking(&mut self, size: u8, operator: TrainOperator) -> (tp: TrainProblem)
        requires
            old(self).ready(),
            old(self).can_train(),
        ensures
            final(self).ready(),
    ;

    fn get_problems_blocking(&mut self) -> (probs: Vec<RealProblem>)
        requires
            old(self).ready(),
        ensures
            final(self).ready(),
    ;

    fn eval_blocking(&mut self, problem: Problem, inputs: Vec<u64>) -> (r: Option<Vec<u64>>)
        requires
            old(self).ready(),
            old(self).serves(problem),
        ensures
            final(self).ready(),
            r is Some ==> r->0@.len() == inputs@.len(),
    ;

    fn guess_blocking(&mut self, problem: Problem, program: String) -> (r: GuessResult)
        requires
            old(self).ready(),
            old(self).serves(problem),
        ensures
            final(self).ready(),
    ;
}

impl Api for FakeApi {
    open spec fn ready(&self) -> bool {
        self.wf()
    }

    open spec fn can_train(&self) -> bool {
        self.programs@.len() > 0
    }

    open spec fn serves(&self, problem: Problem) -> bool {
        self.hidden(problem.id@) is Some
    }

    /// Hands out the first program that is left as a training problem.
    fn get_training_blocking(&mut self, size: u8, operator: TrainOperator) -> (tp: TrainProblem)
        ensures
            old(self).hands_out(*final(self), tp),
    {
        self.get_training(size, operator)
    }

    /// Hands out every program that is left as a problem of the contest.
    fn get_problems_blocking(&mut self) -> (probs: Vec<RealProblem>)
        ensures
            old(self).lists(*final(self), probs@),
    {
        self.get_problems()
    }

    /// What the hidden program of `problem` gives on each of `inputs`. The
    /// oracle stays as it is.
    fn eval_blocking(&mut self, problem: Problem, inputs: Vec<u64>) -> (r: Option<Vec<u64>>)
        ensures
            *final(self) == *old(self),
            old(self).answers(problem.id@, inputs@, r),
    {
        self.eval(problem, inputs)
    }

    /// Judges the guess `program` for `problem` on inputs from the stream
    /// of this oracle.
    fn guess_blocking(&mut self, problem: Problem, program: String) -> (r: GuessResult)
        ensures
            old(self).judges(*final(self), problem.id@, program@, r),
    {
        self.guess(problem, program)
    }
}

} // verus!
