//! The refinement loop for one problem, as a machine that is told what
//! the oracle and the search answered and says what to ask next.

use crate::program::Program;
use crate::rng::XorShiftRng;
use crate::webapi::GuessResult;
use vstd::prelude::*;

verus! {

/// How many fresh inputs are sent to the oracle at a time.
pub const BATCH: usize = 50;

/// After so many guesses in a row that the oracle could not judge, the
/// problem is given up.
pub const MAX_ERRORS: u8 = 3;

/// How the work on a problem ended.
#[derive(Clone, Copy, Debug, PartialEq, Eq, Structural)]
pub enum Outcome {
    /// The oracle took a guess.
    Solved,
    /// The search found no candidate in its time.
    TimedOut,
    /// The oracle could not judge `MAX_ERRORS` guesses in a row.
    Abandoned,
    /// The oracle gave no outputs for the inputs it was sent.
    NoOutputs,
}

/// What the driver waits for.
#[derive(Debug, PartialEq, Eq)]
pub enum Stage {
    /// The outputs for the first inputs.
    Seeding(Vec<u64>),
    /// A candidate.
    Searching,
    /// The judgement of a guess.
    Guessing,
    /// The outputs for fresh inputs, after the oracle gave the output
    /// `output` for `input` against a guess.
    Refining { input: u64, output: u64, inputs: Vec<u64> },
    /// Nothing: the work has ended.
    Done(Outcome),
}

/// What the driver asks for.
#[derive(Debug, PartialEq, Eq)]
pub enum Request {
    /// The outputs of the oracle for these inputs.
    Eval(Vec<u64>),
    /// A candidate, after the search took up the problem with these pairs.
    Reset(Vec<(u64, u64)>),
    /// A candidate, after the search added these pairs to those it has.
    More(Vec<(u64, u64)>),
    /// A candidate, with the pairs as they are.
    Retry,
    /// The judgement of the oracle on this program text.
    Guess(String),
    /// Nothing more.
    Stop(Outcome),
}

/// What the driver is told.
#[derive(Debug, PartialEq, Eq)]
pub enum Reply {
    /// The outputs of the oracle, where it gave any.
    Outputs(Option<Vec<u64>>),
    /// The candidate of the search, where it found one in its time.
    Candidate(Option<Program>),
    /// The judgement of the oracle.
    Judged(GuessResult),
}

/// The inputs with their outputs, as far as both go.
pub open spec fn zip(inputs: Seq<u64>, outputs: Seq<u64>) -> Seq<(u64, u64)> {
    Seq::new(
        if inputs.len() <= outputs.len() {
            inputs.len()
        } else {
            outputs.len()
        },
        |i: int| (inputs[i], outputs[i]),
    )
}

/// The inputs with their outputs, as far as both go.
pub fn pair_up(inputs: &Vec<u64>, outputs: &Vec<u64>) -> (pairs: Vec<(u64, u64)>)
    ensures
        pairs@ == zip(inputs@, outputs@),
{
    let n = if inputs.len() <= outputs.len() {
        inputs.len()
    } else {
        outputs.len()
    };
    let mut pairs: Vec<(u64, u64)> = Vec::new();
    let mut i: usize = 0;
    while i < n
        invariant
            n <= inputs@.len(),
            n <= outputs@.len(),
            0 <= i <= n,
            pairs@.len() == i,
            forall|j: int| 0 <= j < i ==> pairs@[j] == (inputs@[j], outputs@[j]),
        decreases n - i,
    {
        pairs.push((inputs[i], outputs[i]));
        i = i + 1;
    }
    assert(pairs@ =~= zip(inputs@, outputs@));
    pairs
}

/// A copy of `words`.
fn copy_words(words: &Vec<u64>) -> (copy: Vec<u64>)
    ensures
        copy@ == words@,
{
    let mut copy: Vec<u64> = Vec::new();
    let mut i: usize = 0;
    while i < words.len()
        invariant
            0 <= i <= words@.len(),
            copy@ == words@.take(i as int),
        decreases words@.len() - i,
    {
        copy.push(words[i]);
        assert(words@.take(i + 1) == words@.take(i as int).push(words@[i as int]));
        i = i + 1;
    }
    assert(words@.take(i as int) == words@);
    copy
}

/// The refinement loop for one problem.
#[derive(Debug)]
pub struct Driver {
    /// The stream that fresh inputs are drawn from.
    pub rng: XorShiftRng,
    pub stage: Stage,
    /// How many guesses in a row the oracle could not judge.
    pub errors: u8,
}

impl Driver {
    /// Whether fewer guesses in a row went unjudged than end the work.
    pub open spec fn wf(self) -> bool {
        self.errors < MAX_ERRORS
    }

    /// Whether `reply` answers what the driver asked for last.
    pub open spec fn expects(self, reply: Reply) -> bool {
        match self.stage {
            Stage::Seeding(_) => reply is Outputs,
            Stage::Searching => reply is Candidate,
            Stage::Guessing => reply is Judged,
            Stage::Refining { .. } => reply is Outputs,
            Stage::Done(_) => false,
        }
    }

    /// The `BATCH` inputs that the stream `rng` gives next.
    pub open spec fn batch(rng: XorShiftRng) -> Seq<u64> {
        Seq::new(BATCH as nat, |k: int| rng.draw(k as nat))
    }

    /// A driver at the start of a problem, and its first request: the
    /// outputs for `BATCH` inputs from the stream of `seed`.
    pub fn start(seed: u64) -> (r: (Driver, Request))
        ensures
            r.0.wf(),
            r.0.errors == 0,
            r.0.rng == XorShiftRng::seeded(seed).after(2 * BATCH as nat),
            r.0.stage matches Stage::Seeding(held) && held@ == Driver::batch(
                XorShiftRng::seeded(seed),
            ),
            r.1 matches Request::Eval(sent) && sent@ == Driver::batch(XorShiftRng::seeded(seed)),
    {
        let mut rng = XorShiftRng::from_seed(seed);
        let inputs = rng.gen_words(BATCH);
        assert(inputs@ =~= Driver::batch(XorShiftRng::seeded(seed)));
        let sent = copy_words(&inputs);
        (Driver { rng, stage: Stage::Seeding(inputs), errors: 0 }, Request::Eval(sent))
    }

    /// Takes what was answered and says what to ask next.
    ///
    /// The first outputs seed the pairs of the search. A candidate goes to
    /// the oracle as a guess; without one the problem has timed out. A win
    /// ends the work. After a mismatch fresh inputs go to the oracle, and
    /// their pairs and the pair of the mismatch go to the search. A guess
    /// that could not be judged is followed by another candidate, the
    /// `MAX_ERRORS`th in a row by the end. Without outputs the work ends.
    pub fn step(&mut self, reply: Reply) -> (request: Request)
        requires
            old(self).wf(),
            old(self).expects(reply),
        ensures
            final(self).wf(),
            match (old(self).stage, reply) {
                (Stage::Seeding(inputs), Reply::Outputs(Some(outputs))) => {
                    &&& final(self).stage == Stage::Searching
                    &&& final(self).rng == old(self).rng
                    &&& final(self).errors == old(self).errors
                    &&& request matches Request::Reset(pairs) && pairs@ == zip(inputs@, outputs@)
                },
                (Stage::Refining { input, output, inputs }, Reply::Outputs(Some(outputs))) => {
                    &&& final(self).stage == Stage::Searching
                    &&& final(self).rng == old(self).rng
                    &&& final(self).errors == old(self).errors
                    &&& request matches Request::More(pairs) && pairs@ == zip(
                        inputs@,
                        outputs@,
                    ).push((input, output))
                },
                (_, Reply::Outputs(None)) => {
                    &&& final(self).stage == Stage::Done(Outcome::NoOutputs)
                    &&& request == Request::Stop(Outcome::NoOutputs)
                },
                (_, Reply::Candidate(Some(candidate))) => {
                    &&& final(self).stage == Stage::Guessing
                    &&& final(self).rng == old(self).rng
                    &&& final(self).errors == old(self).errors
                    &&& request matches Request::Guess(text) && text@ == candidate.text()
                },
                (_, Reply::Candidate(None)) => {
                    &&& final(self).stage == Stage::Done(Outcome::TimedOut)
                    &&& request == Request::Stop(Outcome::TimedOut)
                },
                (_, Reply::Judged(GuessResult::Win)) => {
                    &&& final(self).stage == Stage::Done(Outcome::Solved)
                    &&& request == Request::Stop(Outcome::Solved)
                },
                (_, Reply::Judged(GuessResult::Mismatch(input, output, _))) => {
                    &&& final(self).rng == old(self).rng.after(2 * BATCH as nat)
                    &&& final(self).errors == 0
                    &&& final(self).stage matches Stage::Refining {
                        input: held_input,
                        output: held_output,
                        inputs: held,
                    } && held_input == input && held_output == output && held@ == Driver::batch(
                        old(self).rng,
                    )
                    &&& request matches Request::Eval(sent) && sent@ == Driver::batch(old(self).rng)
                },
                (_, Reply::Judged(GuessResult::Error(_))) => {
                    &&& final(self).rng == old(self).rng
                    &&& if old(self).errors + 1 < MAX_ERRORS {
                        &&& final(self).errors == old(self).errors + 1
                        &&& final(self).stage == Stage::Searching
                        &&& request == Request::Retry
                    } else {
                        &&& final(self).stage == Stage::Done(Outcome::Abandoned)
                        &&& request == Request::Stop(Outcome::Abandoned)
                    }
                },
                _ => true,
            },
    {
        match reply {
            Reply::Outputs(None) => {
                self.stage = Stage::Done(Outcome::NoOutputs);
                Request::Stop(Outcome::NoOutputs)
            },
            Reply::Outputs(Some(outputs)) => {
                let mut stage = Stage::Searching;
                core::mem::swap(&mut self.stage, &mut stage);
                match stage {
                    Stage::Seeding(inputs) => Request::Reset(pair_up(&inputs, &outputs)),
                    Stage::Refining { input, output, inputs } => {
                        let mut pairs = pair_up(&inputs, &outputs);
                        pairs.push((input, output));
                        Request::More(pairs)
                    },
                    _ => Request::Retry,
                }
            },
            Reply::Candidate(None) => {
                self.stage = Stage::Done(Outcome::TimedOut);
                Request::Stop(Outcome::TimedOut)
            },
            Reply::Candidate(Some(candidate)) => {
                self.stage = Stage::Guessing;
                Request::Guess(candidate.to_str())
            },
            Reply::Judged(GuessResult::Win) => {
                self.stage = Stage::Done(Outcome::Solved);
                Request::Stop(Outcome::Solved)
            },
            Reply::Judged(GuessResult::Mismatch(input, output, _)) => {
                let inputs = self.rng.gen_words(BATCH);
                assert(inputs@ =~= Driver::batch(old(self).rng));
                let sent = copy_words(&inputs);
                self.errors = 0;
                self.stage = Stage::Refining { input, output, inputs };
                Request::Eval(sent)
            },
            Reply::Judged(GuessResult::Error(_)) => {
                if self.errors + 1 < MAX_ERRORS {
                    self.errors = self.errors + 1;
                    self.stage = Stage::Searching;
                    Request::Retry
                } else {
                    self.stage = Stage::Done(Outcome::Abandoned);
                    Request::Stop(Outcome::Abandoned)
                }
            },
        }
    }
}

} // verus!
