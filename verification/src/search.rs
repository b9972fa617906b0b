//! The search for a program that meets a set of input/output pairs: the
//! worker that draws and tests candidates, and the coordinator that owns the
//! pairs and hands out workers.

use crate::eval::Eval;
use crate::gen::{valid_request, RandomGenState, Setup};
use crate::program::{OperatorSet, Program};
use crate::rng::XorShiftRng;
use crate::webapi::Problem;
use vstd::prelude::*;

verus! {

/// After so many candidates a worker looks at the stop flag.
pub const CHECK_EVERY: u32 = 16384;

/// After so many candidates a worker looks at the clock.
pub const CLOCK_EVERY: u32 = 1000000;

/// Whether `p` gives the output of every pair of `pairs` on its input.
pub open spec fn meets(p: Program, pairs: Seq<(u64, u64)>) -> bool {
    forall|i: int| 0 <= i < pairs.len() ==> p.value((#[trigger] pairs[i]).0) == pairs[i].1
}

/// Whether `prog` gives the output of every pair of `pairs` on its input.
pub fn satisfies(prog: &Program, pairs: &Vec<(u64, u64)>) -> (ok: bool)
    requires
        prog.wf(),
    ensures
        ok == meets(*prog, pairs@),
{
    let mut i: usize = 0;
    while i < pairs.len()
        invariant
            prog.wf(),
            0 <= i <= pairs@.len(),
            meets(*prog, pairs@.take(i as int)),
        decreases pairs@.len() - i,
    {
        let (x, y) = pairs[i];
        if prog.eval(x) != y {
            return false;
        }
        assert(meets(*prog, pairs@.take(i + 1))) by {
            assert forall|j: int| 0 <= j < i + 1 implies prog.value(
                (#[trigger] pairs@.take(i + 1)[j]).0,
            ) == pairs@.take(i + 1)[j].1 by {
                if j < i {
                    assert(pairs@.take(i as int)[j] == pairs@[j]);
                }
            }
        }
        i = i + 1;
    }
    assert(pairs@.take(i as int) == pairs@);
    true
}

/// A program that meets the pairs of some time meets the pairs of every
/// earlier time: those were fewer, and the same.
pub proof fn law_meets_earlier(p: Program, earlier: Seq<(u64, u64)>, added: Seq<(u64, u64)>)
    requires
        meets(p, earlier + added),
    ensures
        meets(p, earlier),
        meets(p, added),
{
    let all = earlier + added;
    assert forall|i: int| 0 <= i < earlier.len() implies p.value((#[trigger] earlier[i]).0)
        == earlier[i].1 by {
        assert(all[i] == earlier[i]);
    }
    assert forall|i: int| 0 <= i < added.len() implies p.value((#[trigger] added[i]).0)
        == added[i].1 by {
        assert(all[earlier.len() + i] == added[i]);
    }
}

/// Whether `c` is a candidate that gives the output of every pair of
/// `pairs` on its input. Where the generator came to nothing, it is none.
pub open spec fn hits(c: Option<Program>, pairs: Seq<(u64, u64)>) -> bool {
    c is Some && meets(c->0, pairs)
}

/// The candidates behind the first `a` are those of the stream behind them.
proof fn lemma_stream_add(setup: Setup, rng: XorShiftRng, size: nat, a: nat, b: nat)
    ensures
        setup.stream(rng, size, a + b) == setup.stream(setup.stream(rng, size, a), size, b),
        setup.candidate(rng, size, a + b) == setup.candidate(setup.stream(rng, size, a), size, b),
    decreases b,
{
    if b > 0 {
        lemma_stream_add(setup, rng, size, a, (b - 1) as nat);
        assert(a + b - 1 == a + (b - 1) as nat);
    }
}

/// Why a worker hands control back.
#[derive(Debug, PartialEq, Eq)]
pub enum Poll {
    /// A candidate met every pair. The worker is done.
    Found(Program),
    /// The stop flag is due: where it is set, the worker is to be dropped.
    CheckStop,
    /// The clock is due: where the time is up, the worker is to be dropped.
    CheckClock,
}

/// One search task: a generator of its own and a snapshot of the pairs.
#[derive(Debug)]
pub struct Worker {
    pub gen: RandomGenState,
    pub constraints: Vec<(u64, u64)>,
    pub size: usize,
    /// How many candidates may be drawn before the stop flag is due.
    pub until_stop: u32,
    /// How many candidates were drawn since the stop flag was last due.
    pub since_stop: u32,
    /// How many candidates are drawn before the clock is due.
    pub until_clock: u32,
    /// Whether the worker has found its candidate. It finds one at most.
    pub done: bool,
}

impl Worker {
    /// Whether the generator is set up for the size, and the counts to the
    /// stop flag and to the clock are within their periods: since the stop
    /// flag was last due, and until it is due again, no more than
    /// `CHECK_EVERY` candidates are drawn.
    pub open spec fn wf(self) -> bool {
        &&& self.gen.wf()
        &&& self.gen.accepts(self.size as nat)
        &&& self.until_stop <= CHECK_EVERY
        &&& self.since_stop + self.until_stop <= CHECK_EVERY
        &&& 1 <= self.until_clock <= CLOCK_EVERY
    }

    /// A worker for programs of the size `size` that meet `constraints`.
    pub fn new(gen: RandomGenState, constraints: Vec<(u64, u64)>, size: usize) -> (w: Worker)
        requires
            gen.wf(),
            gen.accepts(size as nat),
        ensures
            w.wf(),
            w.gen == gen,
            w.constraints == constraints,
            w.size == size,
            w.until_stop == CHECK_EVERY - 1,
            w.since_stop == 0,
            w.until_clock == CLOCK_EVERY,
            !w.done,
    {
        Worker {
            gen,
            constraints,
            size,
            until_stop: CHECK_EVERY - 1,
            since_stop: 0,
            until_clock: CLOCK_EVERY,
            done: false,
        }
    }

    /// Whether a search that has taken `elapsed_ns` nanoseconds has used
    /// up a time of `timeout_ns` nanoseconds.
    pub fn timed_out(elapsed_ns: u64, timeout_ns: u64) -> (over: bool)
        ensures
            over == (elapsed_ns > timeout_ns),
    {
        elapsed_ns > timeout_ns
    }

    /// Draws candidates and tests them against the pairs, until one meets
    /// them all, or the stop flag or the clock is due. Returns why it
    /// stopped and how many candidates it drew. A worker that has found its
    /// candidate is not run again.
    ///
    /// The candidates are those that the stream of the worker leads to, one
    /// after the other. None but the last that was drawn meets the pairs,
    /// and that one only where it is found. The stop flag is due before
    /// every `CHECK_EVERY`th candidate: when `since_stop` candidates have
    /// been drawn since it was last due, `CHECK_EVERY - since_stop` more
    /// are drawn at most before the worker asks for it. The clock is due
    /// after every `CLOCK_EVERY`th candidate.
    pub fn run(&mut self) -> (r: (Poll, u32))
        requires
            old(self).wf(),
            !old(self).done,
        ensures
            final(self).wf(),
            final(self).done == (r.0 is Found),
            final(self).gen.same_setup(old(self).gen),
            final(self).constraints == old(self).constraints,
            final(self).size == old(self).size,
            r.1 <= old(self).until_stop,
            r.1 <= CHECK_EVERY,
            final(self).since_stop == (if r.0 is CheckStop {
                0
            } else {
                old(self).since_stop + r.1
            }),
            final(self).gen.rng == old(self).gen.setup().stream(
                old(self).gen.rng,
                old(self).size as nat,
                r.1 as nat,
            ),
            forall|j: nat|
                j + (if r.0 is Found {
                    1nat
                } else {
                    0nat
                }) < r.1 ==> !hits(
                    #[trigger] old(self).gen.setup().candidate(
                        old(self).gen.rng,
                        old(self).size as nat,
                        j,
                    ),
                    old(self).constraints@,
                ),
            match r.0 {
                Poll::Found(p) => {
                    &&& r.1 >= 1
                    &&& old(self).gen.setup().candidate(
                        old(self).gen.rng,
                        old(self).size as nat,
                        (r.1 - 1) as nat,
                    ) == Some(p)
                    &&& old(self).gen.makes(p, old(self).size as nat)
                    &&& meets(p, old(self).constraints@)
                    &&& final(self).until_stop == old(self).until_stop - r.1
                    &&& final(self).until_clock == old(self).until_clock - (r.1 - 1)
                },
                Poll::CheckStop => {
                    &&& r.1 == old(self).until_stop
                    &&& final(self).until_stop == CHECK_EVERY
                    &&& final(self).until_clock == old(self).until_clock - r.1
                },
                Poll::CheckClock => {
                    &&& r.1 == old(self).until_clock
                    &&& final(self).until_stop == old(self).until_stop - r.1
                    &&& final(self).until_clock == CLOCK_EVERY
                },
            },
    {
        let mut drawn: u32 = 0;
        let ghost setup = self.gen.setup();
        let ghost start = self.gen.rng;
        let ghost size = self.size as nat;
        while self.until_stop > 0
            invariant
                self.wf(),
                !self.done,
                self.gen.same_setup(old(self).gen),
                self.constraints == old(self).constraints,
                self.size == old(self).size,
                setup == old(self).gen.setup(),
                start == old(self).gen.rng,
                size == old(self).size,
                drawn + self.until_stop == old(self).until_stop,
                self.since_stop == old(self).since_stop + drawn,
                drawn + self.until_clock == old(self).until_clock,
                old(self).until_stop <= CHECK_EVERY,
                self.gen.rng == setup.stream(start, size, drawn as nat),
                forall|j: nat|
                    j < drawn ==> !hits(
                        #[trigger] setup.candidate(start, size, j),
                        old(self).constraints@,
                    ),
            decreases self.until_stop,
        {
            self.until_stop = self.until_stop - 1;
            self.since_stop = self.since_stop + 1;
            drawn = drawn + 1;
            let candidate = self.gen.gen_program(self.size);
            proof {
                assert(self.gen.setup() == setup);
                assert(setup.candidate(start, size, (drawn - 1) as nat) == candidate);
                assert(setup.stream(start, size, drawn as nat) == self.gen.rng);
            }
            match candidate {
                Some(prog) => {
                    if satisfies(&prog, &self.constraints) {
                        self.done = true;
                        return (Poll::Found(prog), drawn);
                    }
                },
                None => {},
            }
            self.until_clock = self.until_clock - 1;
            if self.until_clock == 0 {
                self.until_clock = CLOCK_EVERY;
                return (Poll::CheckClock, drawn);
            }
        }
        self.until_stop = CHECK_EVERY;
        self.since_stop = 0;
        (Poll::CheckStop, drawn)
    }
}

/// What the coordinator is asked to do.
#[derive(Debug)]
pub enum GenMsg {
    /// Search for a candidate with one worker for each of the given seeds.
    Generate(Vec<u64>),
    /// Take up a new problem with the pairs known of it.
    Reset(Problem, Vec<(u64, u64)>),
    /// Add pairs to those of the problem at hand.
    MoreConstraints(Vec<(u64, u64)>),
    /// Stop for good.
    Exit,
}

/// Where the coordinator stands between its requests.
#[derive(Clone, Copy, Debug, PartialEq, Eq, Structural)]
pub enum Phase {
    Idle,
    Generating,
    Terminated,
}

/// The coordinator of the search: it owns the generator of the problem at
/// hand and the pairs that a candidate has to meet, which only grow.
#[derive(Debug)]
pub struct RandomGen {
    pub problem: Problem,
    pub constraints: Vec<(u64, u64)>,
    pub gen: RandomGenState,
    /// Pairs that came in while workers were out; they count from the next search on.
    pub queued: Vec<(u64, u64)>,
    pub phase: Phase,
    /// Whether a problem has been taken up. A blank coordinator has none,
    /// and is not asked for candidates before it is reset.
    pub has_problem: bool,
}

/// A copy of `pairs`.
fn copy_pairs(pairs: &Vec<(u64, u64)>) -> (copy: Vec<(u64, u64)>)
    ensures
        copy@ == pairs@,
{
    let mut copy: Vec<(u64, u64)> = Vec::new();
    let mut i: usize = 0;
    while i < pairs.len()
        invariant
            0 <= i <= pairs@.len(),
            copy@ == pairs@.take(i as int),
        decreases pairs@.len() - i,
    {
        copy.push(pairs[i]);
        assert(pairs@.take(i + 1) == pairs@.take(i as int).push(pairs@[i as int]));
        i = i + 1;
    }
    assert(pairs@.take(i as int) == pairs@);
    copy
}

/// Moves the pairs of `from` to the end of `to`.
fn append_pairs(to: &mut Vec<(u64, u64)>, from: Vec<(u64, u64)>)
    ensures
        final(to)@ == old(to)@ + from@,
{
    let mut from = from;
    to.append(&mut from);
}

impl RandomGen {
    /// Whether the generator is that of the problem, programs can be asked
    /// for a problem that has been taken up, and pairs wait only while
    /// workers are out.
    pub open spec fn wf(self) -> bool {
        &&& self.gen.wf()
        &&& self.gen.operators == self.problem.operators
        &&& self.has_problem ==> valid_request(self.problem) && self.gen.accepts(
            self.problem.size as nat,
        )
        &&& self.phase != Phase::Generating ==> self.queued@.len() == 0
    }

    /// The coordinator of `problem`, idle, with the pairs known of it. Its
    /// generator is seeded with `seed`.
    pub fn new(problem: Problem, constraints: Vec<(u64, u64)>, seed: u64) -> (g: RandomGen)
        requires
            valid_request(problem),
        ensures
            g.wf(),
            g.phase == Phase::Idle,
            g.problem == problem,
            g.constraints == constraints,
            g.gen.rng == XorShiftRng::seeded(seed),
            !g.gen.loose_bonus,
            g.has_problem,
    {
        let gen = RandomGenState::new(problem.clone(), seed);
        RandomGen {
            problem,
            constraints,
            gen,
            queued: Vec::new(),
            phase: Phase::Idle,
            has_problem: true,
        }
    }

    /// A coordinator to be reset before use: it has taken up no problem.
    /// In the place of one stands a problem of size 3 without operators,
    /// and no pair is known of it.
    pub fn blank(seed: u64) -> (g: RandomGen)
        ensures
            g.wf(),
            g.phase == Phase::Idle,
            !g.has_problem,
            g.problem.size == 3,
            g.problem.operators == OperatorSet::empty(),
            g.problem.id@.len() == 0,
            g.constraints@.len() == 0,
            g.gen.rng == XorShiftRng::seeded(seed),
    {
        let problem = Problem { size: 3, operators: OperatorSet::new(), id: String::new() };
        let gen = RandomGenState::new(problem.clone(), seed);
        RandomGen {
            problem,
            constraints: Vec::new(),
            gen,
            queued: Vec::new(),
            phase: Phase::Idle,
            has_problem: false,
        }
    }

    /// Takes up `problem` with the pairs known of it. The random stream goes on.
    pub fn reset(&mut self, problem: Problem, constraints: Vec<(u64, u64)>)
        requires
            old(self).wf(),
            old(self).phase == Phase::Idle,
            valid_request(problem),
        ensures
            final(self).wf(),
            final(self).phase == Phase::Idle,
            final(self).problem == problem,
            final(self).constraints == constraints,
            final(self).gen.rng == old(self).gen.rng,
            final(self).gen.loose_bonus == old(self).gen.loose_bonus,
            final(self).has_problem,
    {
        self.gen.reset(problem.clone());
        self.problem = problem;
        self.constraints = constraints;
        self.has_problem = true;
    }

    /// Adds `cs` to the pairs of the problem. While workers are out the
    /// pairs wait, and count from the end of that search on.
    pub fn more_constraints(&mut self, cs: Vec<(u64, u64)>)
        requires
            old(self).wf(),
            old(self).phase != Phase::Terminated,
        ensures
            final(self).wf(),
            final(self).phase == old(self).phase,
            final(self).problem == old(self).problem,
            final(self).gen == old(self).gen,
            old(self).phase == Phase::Idle ==> final(self).constraints@ == old(self).constraints@
                + cs@ && final(self).queued@ == old(self).queued@,
            old(self).phase == Phase::Generating ==> final(self).queued@ == old(self).queued@
                + cs@ && final(self).constraints@ == old(self).constraints@,
    {
        match self.phase {
            Phase::Generating => append_pairs(&mut self.queued, cs),
            _ => append_pairs(&mut self.constraints, cs),
        }
    }

    /// Starts a search: one worker for each seed, each with a generator of
    /// its own and with the pairs as they stand now.
    pub fn spawn(&mut self, seeds: &Vec<u64>) -> (workers: Vec<Worker>)
        requires
            old(self).wf(),
            old(self).phase == Phase::Idle,
            old(self).has_problem,
        ensures
            final(self).wf(),
            final(self).phase == Phase::Generating,
            final(self).problem == old(self).problem,
            final(self).constraints == old(self).constraints,
            final(self).gen == old(self).gen,
            workers@.len() == seeds@.len(),
            forall|i: int|
                0 <= i < workers@.len() ==> {
                    let w = #[trigger] workers@[i];
                    &&& w.wf()
                    &&& w.constraints@ == old(self).constraints@
                    &&& w.size == old(self).problem.size
                    &&& w.gen.same_setup(old(self).gen)
                    &&& w.gen.rng == XorShiftRng::seeded(seeds@[i])
                    &&& w.until_stop == CHECK_EVERY - 1
                    &&& w.since_stop == 0
                    &&& w.until_clock == CLOCK_EVERY
                    &&& !w.done
                },
    {
        let mut workers: Vec<Worker> = Vec::new();
        let mut i: usize = 0;
        while i < seeds.len()
            invariant
                self.wf(),
                self.has_problem,
                *self == *old(self),
                0 <= i <= seeds@.len(),
                workers@.len() == i,
                forall|j: int|
                    0 <= j < i ==> {
                        let w = #[trigger] workers@[j];
                        &&& w.wf()
                        &&& w.constraints@ == self.constraints@
                        &&& w.size == self.problem.size
                        &&& w.gen.same_setup(self.gen)
                        &&& w.gen.rng == XorShiftRng::seeded(seeds@[j])
                        &&& w.until_stop == CHECK_EVERY - 1
                    &&& w.since_stop == 0
                        &&& w.until_clock == CLOCK_EVERY
                        &&& !w.done
                    },
            decreases seeds@.len() - i,
        {
            let gen = self.gen.fork(seeds[i]);
            let worker = Worker::new(gen, copy_pairs(&self.constraints), self.problem.size as usize);
            workers.push(worker);
            i = i + 1;
        }
        self.phase = Phase::Generating;
        workers
    }

    /// Ends a search: the pairs that waited join the others.
    pub fn finish(&mut self)
        requires
            old(self).wf(),
            old(self).phase == Phase::Generating,
        ensures
            final(self).wf(),
            final(self).phase == Phase::Idle,
            final(self).problem == old(self).problem,
            final(self).gen == old(self).gen,
            final(self).constraints@ == old(self).constraints@ + old(self).queued@,
            final(self).queued@.len() == 0,
    {
        self.constraints.append(&mut self.queued);
        self.phase = Phase::Idle;
    }

    /// Stops for good. Pairs that waited are dropped.
    pub fn exit(&mut self)
        requires
            old(self).wf(),
        ensures
            final(self).wf(),
            final(self).phase == Phase::Terminated,
            final(self).problem == old(self).problem,
            final(self).constraints == old(self).constraints,
            final(self).gen == old(self).gen,
            final(self).queued@.len() == 0,
    {
        self.queued = Vec::new();
        self.phase = Phase::Terminated;
    }

    /// Whether `msg` may come in the phase the coordinator is in: a search
    /// when idle with a problem, a new problem for which programs can be
    /// asked when idle, pairs until the end, the end always.
    pub open spec fn permits(self, msg: GenMsg) -> bool {
        match msg {
            GenMsg::Generate(_) => self.phase == Phase::Idle && self.has_problem,
            GenMsg::Reset(problem, _) => self.phase == Phase::Idle && valid_request(problem),
            GenMsg::MoreConstraints(_) => self.phase != Phase::Terminated,
            GenMsg::Exit => true,
        }
    }

    /// Does what `msg` asks for. Returns the workers of a search that
    /// starts, else none.
    pub fn handle(&mut self, msg: GenMsg) -> (workers: Vec<Worker>)
        requires
            old(self).wf(),
            old(self).permits(msg),
        ensures
            match msg {
                GenMsg::Generate(seeds) => {
                    &&& final(self).wf()
                    &&& final(self).phase == Phase::Generating
                    &&& final(self).constraints == old(self).constraints
                    &&& workers@.len() == seeds@.len()
                    &&& forall|i: int|
                        0 <= i < workers@.len() ==> {
                            let w = #[trigger] workers@[i];
                            &&& w.wf()
                            &&& w.constraints@ == old(self).constraints@
                            &&& w.size == old(self).problem.size
                            &&& w.gen.same_setup(old(self).gen)
                            &&& w.gen.rng == XorShiftRng::seeded(seeds@[i])
                            &&& !w.done
                        }
                },
                GenMsg::Reset(problem, constraints) => {
                    &&& final(self).wf()
                    &&& final(self).phase == Phase::Idle
                    &&& final(self).problem == problem
                    &&& final(self).constraints == constraints
                    &&& workers@.len() == 0
                },
                GenMsg::MoreConstraints(cs) => {
                    &&& final(self).wf()
                    &&& final(self).phase == old(self).phase
                    &&& old(self).phase == Phase::Idle ==> final(self).constraints@ == old(
                        self,
                    ).constraints@ + cs@
                    &&& old(self).phase == Phase::Generating ==> final(self).queued@ == old(
                        self,
                    ).queued@ + cs@ && final(self).constraints@ == old(self).constraints@
                    &&& workers@.len() == 0
                },
                GenMsg::Exit => {
                    &&& final(self).wf()
                    &&& final(self).phase == Phase::Terminated
                    &&& final(self).constraints == old(self).constraints
                    &&& workers@.len() == 0
                },
            },
    {
        match msg {
            GenMsg::Generate(seeds) => self.spawn(&seeds),
            GenMsg::Reset(problem, constraints) => {
                self.reset(problem, constraints);
                Vec::new()
            },
            GenMsg::MoreConstraints(cs) => {
                self.more_constraints(cs);
                Vec::new()
            },
            GenMsg::Exit => {
                self.exit();
                Vec::new()
            },
        }
    }

    /// A candidate for the problem that meets every pair, found by one
    /// worker in this thread. The worker is seeded with the next 64-bit
    /// word of the coordinator's own stream, and draws the candidates that
    /// its stream leads to, one after the other.
    ///
    /// The candidate that is given is the first of them that meets the
    /// pairs. There is none only where none of the first `budget` of them
    /// meets the pairs.
    pub fn next(&mut self, budget: u64) -> (r: Option<Program>)
        requires
            old(self).wf(),
            old(self).phase == Phase::Idle,
            old(self).has_problem,
        ensures
            final(self).wf(),
            final(self).phase == Phase::Idle,
            final(self).has_problem,
            final(self).problem == old(self).problem,
            final(self).constraints@ == old(self).constraints@,
            final(self).gen.same_setup(old(self).gen),
            final(self).gen.rng == old(self).gen.rng.step().step(),
            match r {
                Some(p) => {
                    &&& old(self).gen.makes(p, old(self).problem.size as nat)
                    &&& meets(p, old(self).constraints@)
                    &&& exists|k: nat|
                        #[trigger] old(self).first_hit(k) && old(self).nth(k) == Some(p)
                },
                None => forall|j: nat| j < budget ==> !hits(#[trigger] old(self).nth(j), old(self).constraints@),
            },
    {
        let ghost setup = self.gen.setup();
        let ghost size = self.problem.size as nat;
        let ghost pairs = self.constraints@;
        let seed = self.gen.rng.next_u64();
        let ghost start = XorShiftRng::seeded(seed);
        let gen = self.gen.fork(seed);
        let mut worker = Worker::new(gen, copy_pairs(&self.constraints), self.problem.size as usize);
        let mut remaining = budget;
        let ghost mut done: nat = 0;
        while remaining > 0
            invariant
                self.wf(),
                self.phase == Phase::Idle,
                self.has_problem,
                self.problem == old(self).problem,
                self.constraints@ == old(self).constraints@,
                self.gen.same_setup(old(self).gen),
                self.gen.rng == old(self).gen.rng.step().step(),
                setup == old(self).gen.setup(),
                size == old(self).problem.size,
                pairs == old(self).constraints@,
                start == XorShiftRng::seeded(old(self).gen.rng.word64()),
                worker.wf(),
                !worker.done,
                worker.gen.same_setup(old(self).gen),
                worker.constraints@ == pairs,
                worker.size == size,
                worker.gen.rng == setup.stream(start, size, done),
                forall|j: nat| j < done ==> !hits(#[trigger] setup.candidate(start, size, j), pairs),
                done + remaining >= budget,
            decreases
                    remaining,
                    (if worker.until_stop == 0 {
                        1nat
                    } else {
                        0nat
                    }),
        {
            let ghost before = worker.gen.rng;
            let (poll, drawn) = worker.run();
            proof {
                assert(worker.gen.setup() == setup);
                let found: nat = if poll is Found {
                    1
                } else {
                    0
                };
                assert forall|j: nat| j + found < done + drawn implies !hits(
                    #[trigger] setup.candidate(start, size, j),
                    pairs,
                ) by {
                    if j >= done {
                        lemma_stream_add(setup, start, size, done, (j - done) as nat);
                        assert(!hits(setup.candidate(before, size, (j - done) as nat), pairs));
                    }
                }
                lemma_stream_add(setup, start, size, done, drawn as nat);
                if drawn > 0 {
                    lemma_stream_add(setup, start, size, done, (drawn - 1) as nat);
                }
            }
            match poll {
                Poll::Found(p) => {
                    proof {
                        let k = (done + drawn - 1) as nat;
                        assert(old(self).nth(k) == Some(p));
                        assert(old(self).first_hit(k));
                    }
                    return Some(p);
                },
                _ => {},
            }
            proof {
                done = done + drawn as nat;
            }
            remaining = if (drawn as u64) < remaining {
                remaining - drawn as u64
            } else {
                0
            };
        }
        None
    }

    /// The candidate with the number `k`, counted from 0, that the worker
    /// of `next` draws: the stream of that worker is seeded with the next
    /// 64-bit word of the coordinator's stream.
    pub open spec fn nth(self, k: nat) -> Option<Program> {
        self.gen.setup().candidate(
            XorShiftRng::seeded(self.gen.rng.word64()),
            self.problem.size as nat,
            k,
        )
    }

    /// Whether the candidate with the number `k` meets the pairs, and none
    /// before it does.
    pub open spec fn first_hit(self, k: nat) -> bool {
        &&& hits(self.nth(k), self.constraints@)
        &&& forall|j: nat| j < k ==> !hits(#[trigger] self.nth(j), self.constraints@)
    }
}

} // verus!
