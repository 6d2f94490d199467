//! The processing-sequence iterator: a resumable traversal over (row, action)
//! pairs, driven by the progress the processor reports back.
//!
//! The default strategy sweeps every row and action per pass and stops after
//! a pass without progress, or when the round budget — the finite height of
//! the update lattice — is spent. A recorded ordering can be replayed for
//! later blocks.

use vstd::prelude::*;

verus! {

/// What a step asks the processor to do.
#[derive(Debug, Clone, Copy, PartialEq, Eq, Structural)]
pub enum Action {
    /// Process the identity with this index.
    InternalIdentity(usize),
    /// Evaluate the caller's left-hand side against this row.
    OuterQuery,
    /// Ask the host oracle about every relevant unknown cell of this row.
    ProverQueries,
}

/// One step: the row (as an offset relative to one before the block start)
/// and the action to take there.
#[derive(Debug, Clone, Copy, PartialEq, Eq, Structural)]
pub struct SequenceStep {
    pub row_delta: i64,
    pub action: Action,
}

/// The default strategy: full sweeps until a pass makes no progress.
pub struct DefaultSequenceIterator {
    pub block_size: usize,
    pub n_identities: usize,
    pub has_outer_query: bool,
    pub cur_row: usize,
    pub cur_action: usize,
    pub progress_in_round: bool,
    pub rounds_left: u64,
    pub done: bool,
    pub record: bool,
    pub recorded: Vec<SequenceStep>,
    pub last_step: Option<SequenceStep>,
}

impl DefaultSequenceIterator {
    /// Actions per row: each identity, the prover queries, and the outer
    /// query if one is set.
    pub open spec fn spec_n_actions(self) -> int {
        self.n_identities + 1 + if self.has_outer_query {
            1int
        } else {
            0int
        }
    }

    /// Structural invariant of the cursor.
    pub open spec fn wf(self) -> bool {
        &&& self.block_size <= 0x1000_0000
        &&& self.n_identities <= 0x1000_0000
        &&& self.cur_row <= self.block_size + 1
        &&& self.cur_action < self.spec_n_actions()
        &&& (self.cur_row == self.block_size + 1 ==> self.cur_action == 0)
    }

    /// How many steps the iterator can still yield, at most.
    pub open spec fn spec_remaining(self) -> int {
        if self.done {
            0
        } else {
            self.rounds_left * ((self.block_size + 1) * self.spec_n_actions()) + (self.block_size
                + 1 - self.cur_row) * self.spec_n_actions() - self.cur_action
        }
    }

    /// A sweep iterator over rows `0 ..= block_size` and the given number of
    /// identities. `max_rounds` bounds the number of progress-driven passes.
    pub fn new(block_size: usize, n_identities: usize, has_outer_query: bool, max_rounds: u64) -> (r:
        DefaultSequenceIterator)
        requires
            block_size <= 0x1000_0000,
            n_identities <= 0x1000_0000,
        ensures
            r.wf(),
            r.block_size == block_size,
            r.n_identities == n_identities,
            r.has_outer_query == has_outer_query,
    {
        DefaultSequenceIterator {
            block_size,
            n_identities,
            has_outer_query,
            cur_row: 0,
            cur_action: 0,
            progress_in_round: false,
            rounds_left: max_rounds,
            done: false,
            record: false,
            recorded: Vec::new(),
            last_step: None,
        }
    }

    /// The next step, or nothing when a pass brought no progress or the
    /// budget is spent.
    pub fn next(&mut self) -> (r: Option<SequenceStep>)
        requires
            old(self).wf(),
        ensures
            final(self).wf(),
            r is Some ==> final(self).spec_remaining() < old(self).spec_remaining(),
            r is None ==> final(self).spec_remaining() == 0,
            r is Some ==> step_valid(r->0, old(self).block_size, old(self).n_identities, old(
                self,
            ).has_outer_query),
            final(self).block_size == old(self).block_size,
            final(self).n_identities == old(self).n_identities,
            final(self).has_outer_query == old(self).has_outer_query,
    {
        if self.done {
            return None;
        }
        if self.cur_row > self.block_size {
            // A pass is over: continue only if it brought progress and the
            // budget allows another.
            if !self.progress_in_round || self.rounds_left == 0 {
                self.done = true;
                return None;
            }
            self.rounds_left = self.rounds_left - 1;
            self.progress_in_round = false;
            self.cur_row = 0;
            self.cur_action = 0;
        }
        let action = if self.cur_action < self.n_identities {
            Action::InternalIdentity(self.cur_action)
        } else if self.cur_action == self.n_identities {
            Action::ProverQueries
        } else {
            Action::OuterQuery
        };
        let step = SequenceStep { row_delta: self.cur_row as i64 - 1, action };
        self.last_step = Some(step);
        // Advance the cursor.
        let n_actions = self.n_identities + 1 + if self.has_outer_query {
            1
        } else {
            0
        };
        let ghost mid = *self;
        if self.cur_action + 1 < n_actions {
            self.cur_action += 1;
        } else {
            self.cur_action = 0;
            self.cur_row += 1;
        }
        proof {
            let na = self.spec_n_actions();
            let bs = self.block_size as int;
            let rl = old(self).rounds_left as int;
            assert(rl * ((bs + 1) * na) == (rl - 1) * ((bs + 1) * na) + (bs + 1) * na)
                by (nonlinear_arith);
            if mid.cur_action + 1 < na {
            } else {
                let row = mid.cur_row as int;
                assert((bs + 1 - (row + 1)) * na == (bs + 1 - row) * na - na)
                    by (nonlinear_arith);
            }
            if old(self).cur_row > old(self).block_size {
                let orow = 0int;
                assert((bs + 1 - orow) * na == (bs + 1) * na);
            }
        }
        Some(step)
    }

    /// Reports whether the last step made progress; a recording iterator
    /// also keeps the step for replay.
    pub fn report_progress(&mut self, progress: bool)
        requires
            old(self).wf(),
        ensures
            final(self).wf(),
            final(self).spec_remaining() <= old(self).spec_remaining(),
            final(self).block_size == old(self).block_size,
            final(self).n_identities == old(self).n_identities,
            final(self).has_outer_query == old(self).has_outer_query,
    {
        if progress {
            self.progress_in_round = true;
            if self.record {
                match self.last_step {
                    Some(step) => {
                        if self.recorded.len() < 0x1000_0000 {
                            self.recorded.push(step);
                        }
                    },
                    None => {},
                }
            }
        }
    }
}

/// A step fits the block it is for.
pub open spec fn step_valid(
    step: SequenceStep,
    block_size: usize,
    n_identities: usize,
    has_outer_query: bool,
) -> bool {
    &&& -1 <= step.row_delta
    &&& step.row_delta + 1 <= block_size
    &&& match step.action {
        Action::InternalIdentity(i) => i < n_identities,
        Action::OuterQuery => has_outer_query,
        Action::ProverQueries => true,
    }
}

/// A replayed ordering: the steps of an earlier successful solve, in order.
pub struct CachedSequenceIterator {
    pub steps: Vec<SequenceStep>,
    pub pos: usize,
}

impl CachedSequenceIterator {
    /// How many steps remain.
    pub open spec fn spec_remaining(self) -> int {
        if self.pos <= self.steps@.len() {
            self.steps@.len() - self.pos
        } else {
            0
        }
    }
}

/// A pluggable traversal strategy.
pub enum ProcessingSequenceIterator {
    /// Sweep all rows and actions until a pass makes no progress.
    Default(DefaultSequenceIterator),
    /// Replay a recorded ordering.
    Cached(CachedSequenceIterator),
}

impl ProcessingSequenceIterator {
    /// Structural invariant.
    pub open spec fn wf(self) -> bool {
        match self {
            ProcessingSequenceIterator::Default(it) => it.wf(),
            ProcessingSequenceIterator::Cached(it) => it.pos <= it.steps@.len(),
        }
    }

    /// Steps the strategy can still yield, at most.
    pub open spec fn spec_remaining(self) -> int {
        match self {
            ProcessingSequenceIterator::Default(it) => it.spec_remaining(),
            ProcessingSequenceIterator::Cached(it) => it.spec_remaining(),
        }
    }

    /// Every step this strategy yields fits the given block.
    pub open spec fn fits(self, block_size: usize, n_identities: usize, has_outer_query: bool) -> bool {
        match self {
            ProcessingSequenceIterator::Default(it) => {
                &&& it.block_size == block_size
                &&& it.n_identities == n_identities
                &&& (it.has_outer_query ==> has_outer_query)
            },
            ProcessingSequenceIterator::Cached(it) => forall|t: int|
                0 <= t < it.steps@.len() ==> step_valid(
                    #[trigger] it.steps@[t],
                    block_size,
                    n_identities,
                    has_outer_query,
                ),
        }
    }

    /// The next step of the strategy.
    pub fn next(&mut self) -> (r: Option<SequenceStep>)
        requires
            old(self).wf(),
        ensures
            final(self).wf(),
            r is Some ==> final(self).spec_remaining() < old(self).spec_remaining(),
            r is None ==> final(self).spec_remaining() == 0,
            forall|bs: usize, ni: usize, oq: bool|
                old(self).fits(bs, ni, oq) ==> #[trigger] final(self).fits(bs, ni, oq),
            forall|bs: usize, ni: usize, oq: bool|
                old(self).fits(bs, ni, oq) && r is Some ==> step_valid(r->0, bs, ni, oq),
    {
        match self {
            ProcessingSequenceIterator::Default(it) => it.next(),
            ProcessingSequenceIterator::Cached(it) => {
                if it.pos < it.steps.len() {
                    let step = it.steps[it.pos];
                    it.pos += 1;
                    Some(step)
                } else {
                    None
                }
            },
        }
    }

    /// Reports whether the last step made progress.
    pub fn report_progress(&mut self, progress: bool)
        requires
            old(self).wf(),
        ensures
            final(self).wf(),
            final(self).spec_remaining() <= old(self).spec_remaining(),
            forall|bs: usize, ni: usize, oq: bool|
                old(self).fits(bs, ni, oq) ==> #[trigger] final(self).fits(bs, ni, oq),
    {
        match self {
            ProcessingSequenceIterator::Default(it) => it.report_progress(progress),
            ProcessingSequenceIterator::Cached(_) => {},
        }
    }
}

/// A well-formed iterator never has a negative step budget.
pub proof fn lemma_remaining_nonneg(it: ProcessingSequenceIterator)
    requires
        it.wf(),
    ensures
        it.spec_remaining() >= 0,
{
    match it {
        ProcessingSequenceIterator::Default(d) => {
            if !d.done {
                let na = d.spec_n_actions();
                let bs = d.block_size as int;
                let rl = d.rounds_left as int;
                let row = d.cur_row as int;
                let ca = d.cur_action as int;
                assert(rl * ((bs + 1) * na) >= 0) by (nonlinear_arith)
                    requires
                        rl >= 0,
                        bs >= 0,
                        na >= 1,
                ;
                assert((bs + 1 - row) * na - ca >= 0) by (nonlinear_arith)
                    requires
                        0 <= ca < na,
                        row <= bs + 1,
                        (row == bs + 1 ==> ca == 0),
                ;
            }
        },
        ProcessingSequenceIterator::Cached(_) => {},
    }
}

} // verus!
