use crate::materialize::{resolve_deltas, status_view};
use crate::output::{without_layout, OutputView, ResourceWriteView};
use crate::serial::{
    lemma_failure_cause, lemma_failure_is_final, lemma_no_residual_deltas, lemma_recorded_results,
    lemma_skip_propagates, serial_block, serial_prefix, settled, skipped, BlockAbort, SerialRun,
};
use crate::state::{lookup, writes_view, State, StateKey, StateView, WriteOp, WriteView};
use crate::task::{
    CategorizeError, ErrorCategory, ExecutionStatus, ExecutorTask, TransactionOutput, TxnIndex,
};
use crate::view::{
    blocked_by, bytes_view, overlay, reads_hold, reads_view, same_bytes, versions_view, LatestView,
    ReadResult, ReadView,
};
use vstd::prelude::*;

verus! {

/// Where a transaction stands.
#[derive(Debug, Clone, Copy, PartialEq, Eq, Structural)]
pub enum TxnStatus {
    /// Not executed yet, or sent back for another execution.
    Pending,
    /// Handed to a worker for a speculative execution that has not been
    /// made yet.
    Executing,
    /// Executed speculatively; the result waits for its commit.
    Executed,
    /// Executed speculatively, and handed to a worker for a validation that
    /// has not been made yet.
    Validating,
    /// Final: the result is part of the block's output.
    Committed,
    /// Final: a lower transaction returned `SkipRest`, so this one has the
    /// skip output and was never run for the block's output.
    SkippedDueToHalt,
}

/// One move of the engine. A schedule is any sequence of them.
#[derive(Debug, Clone, Copy, PartialEq, Eq, Structural)]
pub enum Step {
    /// Execute a transaction speculatively, over what is known so far.
    Execute(TxnIndex),
    /// Check the reads of a speculative execution against what is known now.
    Validate(TxnIndex),
    /// Discard a speculative execution, as a failed validation does.
    Abort(TxnIndex),
    /// Make the lowest transaction that is not final yet final.
    Commit,
}

/// What a transaction was handed to a worker for.
#[derive(Clone, Copy, PartialEq, Eq, Structural)]
enum Claim {
    Free,
    Executing,
    Validating,
}

/// The results of a block and the state that it leaves.
pub struct BlockOutput<O, E> {
    /// One result per transaction, in index order.
    pub results: Vec<ExecutionStatus<O, E>>,
    /// The state after the block.
    pub state: State,
}

/// The views of a list of results.
pub open spec fn results_view<O: View, E>(results: Seq<ExecutionStatus<O, E>>) -> Seq<
    ExecutionStatus<O::V, E>,
> {
    Seq::new(results.len(), |i: int| status_view(results[i]))
}

/// Whether `result` is what the serial execution `serial` gives: the same
/// results over the same final state, or the same failure.
pub open spec fn matches_serial<O: View<V = OutputView>, E>(
    result: Result<BlockOutput<O, E>, BlockAbort<E>>,
    serial: Result<SerialRun<E>, BlockAbort<E>>,
) -> bool {
    match result {
        Ok(output) => serial matches Ok(run) && run.results == results_view(output.results@)
            && run.state == output.state@,
        Err(abort) => serial == Err::<SerialRun<E>, BlockAbort<E>>(abort),
    }
}

/// Two runs of one block agree. Whatever was executed, validated or aborted
/// on the way, and however often, results that both are what serial
/// execution gives are the same results over the same final state, or the
/// same failure.
pub proof fn lemma_runs_agree<O: View<V = OutputView>, E>(
    first: Result<BlockOutput<O, E>, BlockAbort<E>>,
    second: Result<BlockOutput<O, E>, BlockAbort<E>>,
    serial: Result<SerialRun<E>, BlockAbort<E>>,
)
    requires
        matches_serial(first, serial),
        matches_serial(second, serial),
    ensures
        match (first, second) {
            (Ok(one), Ok(other)) => results_view(one.results@) == results_view(other.results@)
                && one.state@ == other.state@,
            (Err(one), Err(other)) => one == other,
            _ => false,
        },
{
}

/// The writes to the state that come with a status: those of its output, or
/// none for an abort.
pub open spec fn writes_of<E>(status: ExecutionStatus<OutputView, E>) -> Seq<WriteView> {
    match status {
        ExecutionStatus::Success(output) => output.state_writes(),
        ExecutionStatus::SkipRest(output) => output.state_writes(),
        ExecutionStatus::Abort(_) => Seq::empty(),
    }
}

/// Whether two optional byte strings are equal.
pub fn same_optional_bytes(a: &Option<Vec<u8>>, b: &Option<Vec<u8>>) -> (same: bool)
    ensures
        same == (bytes_view(*a) == bytes_view(*b)),
{
    match (a, b) {
        (Some(x), Some(y)) => same_bytes(x, y),
        (None, None) => true,
        _ => false,
    }
}

/// Whether the committed state answers every captured read as it was
/// answered.
pub fn reads_still_hold(reads: &Vec<(StateKey, Option<Vec<u8>>)>, state: &State) -> (valid: bool)
    ensures
        valid == reads_hold(reads_view(reads@), state@),
{
    let mut i: usize = 0;
    while i < reads.len()
        invariant
            i <= reads.len(),
            forall|k: int|
                0 <= k < i ==> lookup(state@, (#[trigger] reads_view(reads@)[k]).0) == reads_view(
                    reads@,
                )[k].1,
        decreases reads.len() - i,
    {
        let same = match (state.get(reads[i].0), &reads[i].1) {
            (Some(now), Some(then)) => same_bytes(now, then),
            (None, None) => true,
            _ => false,
        };
        if !same {
            assert(lookup(state@, reads_view(reads@)[i as int].0) != reads_view(
                reads@,
            )[i as int].1);
            return false;
        }
        i += 1;
    }
    true
}

/// The writes that an output makes to the state, in the order in which they
/// take effect.
pub fn state_writes_of<O: TransactionOutput>(output: &O) -> (writes: Vec<(StateKey, WriteOp)>)
    ensures
        writes_view(writes@) == output@.state_writes(),
{
    let resources = output.resource_write_set();
    let mut writes: Vec<(StateKey, WriteOp)> = Vec::new();
    let mut i: usize = 0;
    while i < resources.len()
        invariant
            i <= resources.len(),
            writes.len() == i,
            forall|k: int|
                0 <= k < i ==> (#[trigger] writes[k]).0 == resources[k].0 && writes[k].1@
                    == resources[k].1@,
        decreases resources.len() - i,
    {
        writes.push((resources[i].0, resources[i].1.duplicate()));
        i += 1;
    }
    let mut modules = output.module_write_set();
    let mut aggregators = output.aggregator_v1_write_set();
    writes.append(&mut modules);
    writes.append(&mut aggregators);
    writes
}

/// What a speculative execution left behind: its reads, its result, and the
/// state that it ran on.
struct ExecutionRecord<O, E> {
    reads: Vec<(StateKey, Option<Vec<u8>>)>,
    status: ExecutionStatus<O, E>,
    seen: Ghost<StateView>,
}

/// The engine that runs one block. Transactions are executed speculatively
/// in any order and any number of times; they become final in index order.
pub struct BlockExecutor<'a, X: ExecutorTask> {
    executor: &'a X,
    txns: &'a Vec<X::Txn>,
    committed: State,
    versions: Vec<Vec<(StateKey, WriteOp)>>,
    estimates: Vec<bool>,
    records: Vec<Option<ExecutionRecord<X::Output, X::Error>>>,
    results: Vec<ExecutionStatus<X::Output, X::Error>>,
    claims: Vec<Claim>,
    next_to_execute: usize,
    next_to_validate: usize,
    halted_at: Option<TxnIndex>,
    failure: Option<BlockAbort<X::Error>>,
    base: Ghost<StateView>,
}

impl<'a, X: ExecutorTask> BlockExecutor<'a, X> {
    /// The executor that runs the transactions.
    pub closed spec fn executor(&self) -> &X {
        self.executor
    }

    /// The transactions of the block.
    pub closed spec fn block(&self) -> Seq<X::Txn> {
        self.txns@
    }

    /// The number of transactions that are final.
    pub closed spec fn committed_count(&self) -> nat {
        self.results@.len()
    }

    /// The results of the transactions that are final.
    pub closed spec fn committed_results(&self) -> Seq<ExecutionStatus<OutputView, X::Error>> {
        results_view(self.results@)
    }

    /// The state that the final transactions leave.
    pub closed spec fn committed_state(&self) -> StateView {
        self.committed@
    }

    /// The state before the block.
    pub closed spec fn base_state(&self) -> StateView {
        self.base@
    }

    /// The failure of the block, if it has failed.
    pub closed spec fn failure(&self) -> Option<BlockAbort<X::Error>> {
        self.failure
    }

    /// The transaction whose `SkipRest` ended the block, if there is one.
    pub closed spec fn halted_at(&self) -> Option<TxnIndex> {
        self.halted_at
    }

    /// The writes of the latest speculative execution of each transaction
    /// that did not give up, one list per transaction.
    pub closed spec fn speculative_writes(&self) -> Seq<Seq<WriteView>> {
        versions_view(self.versions@)
    }

    /// For each transaction, whether its speculative writes are only an
    /// estimate, because the execution that made them was discarded and has
    /// not been repeated.
    pub closed spec fn estimates(&self) -> Seq<bool> {
        self.estimates@
    }

    /// The state that a speculative execution of `txn_idx` runs on now: the
    /// committed state, overlaid with the speculative writes of the
    /// transactions below `txn_idx` that are not final.
    pub open spec fn snapshot_for(&self, txn_idx: TxnIndex) -> StateView {
        overlay(
            self.committed_state(),
            self.speculative_writes(),
            self.committed_count() as int,
            txn_idx as int,
        )
    }

    /// The transaction that a speculative execution of `txn_idx` would wait
    /// for on a read of `key`: the latest lower writer of the key that is not
    /// final, where what it wrote is an estimate.
    pub open spec fn blocking_for(&self, txn_idx: TxnIndex, key: StateKey) -> Option<TxnIndex> {
        blocked_by(
            self.speculative_writes(),
            self.estimates(),
            self.committed_count() as int,
            txn_idx as int,
            key,
        )
    }

    /// Whether one of `reads` is a read of a key on which a speculative
    /// execution of `txn_idx` would wait.
    pub open spec fn blocks_any(&self, txn_idx: TxnIndex, reads: Seq<ReadView>) -> bool {
        exists|i: int|
            0 <= i < reads.len() && self.blocking_for(txn_idx, (#[trigger] reads[i]).0).is_some()
    }

    /// The reads of the speculative execution that is on record for
    /// `txn_idx`, if one is.
    pub closed spec fn recorded_reads(&self, txn_idx: TxnIndex) -> Option<Seq<ReadView>> {
        if self.results@.len() <= txn_idx < self.records@.len() {
            match self.records@[txn_idx as int] {
                Some(record) => Some(reads_view(record.reads@)),
                None => None,
            }
        } else {
            None
        }
    }

    /// Where `txn_idx` stands.
    pub closed spec fn status_of(&self, txn_idx: TxnIndex) -> TxnStatus {
        if txn_idx < self.results@.len() {
            match self.halted_at {
                Some(halt) if halt < txn_idx => TxnStatus::SkippedDueToHalt,
                _ => TxnStatus::Committed,
            }
        } else if txn_idx < self.claims@.len() && self.claims@[txn_idx as int]
            == Claim::Executing {
            TxnStatus::Executing
        } else if self.recorded_reads(txn_idx).is_none() {
            TxnStatus::Pending
        } else if txn_idx < self.claims@.len() && self.claims@[txn_idx as int]
            == Claim::Validating {
            TxnStatus::Validating
        } else {
            TxnStatus::Executed
        }
    }

    /// The number of transactions that `next_task` has handed out for a
    /// first speculative execution, or passed over because they were final.
    pub closed spec fn handed_out(&self) -> nat {
        self.next_to_execute as nat
    }

    /// The number of transactions that `next_task` has handed out for a
    /// validation or a repeated execution, or passed over because they were
    /// final.
    pub closed spec fn handed_out_again(&self) -> nat {
        self.next_to_validate as nat
    }

    /// Whether `after` differs from `before` at most in what is on record
    /// for `txn_idx`: what is final, and where every other transaction
    /// stands and what it has read, is the same.
    pub open spec fn same_but_for(before: Self, after: Self, txn_idx: TxnIndex) -> bool {
        &&& after.executor() == before.executor()
        &&& after.block() == before.block()
        &&& after.committed_count() == before.committed_count()
        &&& after.committed_results() == before.committed_results()
        &&& after.committed_state() == before.committed_state()
        &&& after.base_state() == before.base_state()
        &&& after.failure() == before.failure()
        &&& after.halted_at() == before.halted_at()
        &&& after.handed_out() == before.handed_out()
        &&& after.handed_out_again() == before.handed_out_again()
        &&& forall|other: TxnIndex|
            other != txn_idx ==> #[trigger] after.status_of(other) == before.status_of(other)
        &&& forall|other: TxnIndex|
            other != txn_idx ==> #[trigger] after.recorded_reads(other) == before.recorded_reads(
                other,
            )
    }

    /// What discarding the speculative execution of `txn_idx` makes of the
    /// engine `before`: the transaction is pending, what it wrote is an
    /// estimate, and nothing else differs.
    pub open spec fn abort_effect(before: Self, after: Self, txn_idx: TxnIndex) -> bool {
        &&& Self::same_but_for(before, after, txn_idx)
        &&& after.status_of(txn_idx) == TxnStatus::Pending
        &&& after.recorded_reads(txn_idx).is_none()
        &&& after.speculative_writes() == before.speculative_writes()
        &&& after.estimates() == before.estimates().update(txn_idx as int, true)
    }

    /// What a speculative execution of `txn_idx` makes of the engine
    /// `before`. The execution runs over the state that the transaction
    /// sees. If it reads a key on which it has to wait, or gives up with a
    /// speculative error, it is discarded. Otherwise it is on record with
    /// its reads, and its writes take the place of what the transaction
    /// wrote before.
    pub open spec fn execute_effect(before: Self, after: Self, txn_idx: TxnIndex) -> bool {
        let executor = before.executor();
        let txns = before.block();
        let seen = before.snapshot_for(txn_idx);
        let reads = executor.reads(&txns[txn_idx as int], txn_idx, seen, false);
        let outcome = executor.outcome(&txns[txn_idx as int], txn_idx, seen, false);
        let gives_up = outcome matches ExecutionStatus::Abort(error) && error.category()
            == ErrorCategory::SpeculativeExecutionAbortError;
        if gives_up || before.blocks_any(txn_idx, reads) {
            Self::abort_effect(before, after, txn_idx)
        } else {
            &&& Self::same_but_for(before, after, txn_idx)
            &&& after.status_of(txn_idx) == TxnStatus::Executed
            &&& after.recorded_reads(txn_idx) == Some(reads)
            &&& after.speculative_writes() == before.speculative_writes().update(
                txn_idx as int,
                writes_of(outcome),
            )
            &&& after.estimates() == before.estimates().update(txn_idx as int, false)
        }
    }

    /// What a validation of `txn_idx` makes of the engine `before`, and when
    /// it succeeds: when an execution is on record, and the state that the
    /// transaction would run on now answers every read of it as it was
    /// answered, without a dependency. A valid execution stays on record; an
    /// invalid one is discarded.
    pub open spec fn validate_effect(
        before: Self,
        after: Self,
        txn_idx: TxnIndex,
        valid: bool,
    ) -> bool {
        &&& Self::same_but_for(before, after, txn_idx)
        &&& valid == (before.recorded_reads(txn_idx) matches Some(reads) && reads_hold(
            reads,
            before.snapshot_for(txn_idx),
        ) && forall|i: int|
            0 <= i < reads.len() ==> before.blocking_for(
                txn_idx,
                (#[trigger] reads[i]).0,
            ).is_none())
        &&& valid ==> {
            &&& after.status_of(txn_idx) == TxnStatus::Executed
            &&& after.recorded_reads(txn_idx) == before.recorded_reads(txn_idx)
            &&& after.speculative_writes() == before.speculative_writes()
            &&& after.estimates() == before.estimates()
        }
        &&& !valid ==> Self::abort_effect(before, after, txn_idx)
    }

    /// What `next_task` makes of the engine `before`, and which task it gives.
    /// Nothing that is final or on record changes, and no transaction but
    /// the one that is handed out stands elsewhere than before.
    pub open spec fn task_effect(before: Self, after: Self, task: Option<Step>) -> bool {
        let txns = before.block();
        let first = if before.handed_out() < before.committed_count() {
            before.committed_count()
        } else {
            before.handed_out()
        };
        let again = if before.handed_out_again() < before.committed_count() {
            before.committed_count()
        } else {
            before.handed_out_again()
        };
        &&& after.executor() == before.executor()
        &&& after.block() == before.block()
        &&& after.committed_count() == before.committed_count()
        &&& after.committed_results() == before.committed_results()
        &&& after.committed_state() == before.committed_state()
        &&& after.base_state() == before.base_state()
        &&& after.failure() == before.failure()
        &&& after.halted_at() == before.halted_at()
        &&& after.speculative_writes() == before.speculative_writes()
        &&& after.estimates() == before.estimates()
        &&& forall|i: TxnIndex| #[trigger] after.recorded_reads(i) == before.recorded_reads(i)
        &&& if before.done() {
            &&& task.is_none()
            &&& after.handed_out() == before.handed_out()
            &&& after.handed_out_again() == before.handed_out_again()
            &&& forall|i: TxnIndex| #[trigger] after.status_of(i) == before.status_of(i)
        } else if first < txns.len() {
            &&& task == Some(Step::Execute(first as TxnIndex))
            &&& after.handed_out() == first + 1
            &&& after.handed_out_again() == before.handed_out_again()
            &&& after.status_of(first as TxnIndex) == TxnStatus::Executing
            &&& forall|i: TxnIndex|
                i != first ==> #[trigger] after.status_of(i) == before.status_of(i)
        } else if again < txns.len() {
            &&& task == if before.recorded_reads(again as TxnIndex).is_some() {
                Some(Step::Validate(again as TxnIndex))
            } else {
                Some(Step::Execute(again as TxnIndex))
            }
            &&& after.handed_out() == before.handed_out()
            &&& after.handed_out_again() == again + 1
            &&& after.status_of(again as TxnIndex) == if before.recorded_reads(
                again as TxnIndex,
            ).is_some() {
                TxnStatus::Validating
            } else {
                TxnStatus::Executing
            }
            &&& forall|i: TxnIndex|
                i != again ==> #[trigger] after.status_of(i) == before.status_of(i)
        } else {
            &&& task == Some(Step::Commit)
            &&& after.handed_out() == before.handed_out()
            &&& after.handed_out_again() == before.handed_out_again()
            &&& forall|i: TxnIndex| #[trigger] after.status_of(i) == before.status_of(i)
        }
    }

    /// Whether a speculative move on `txn_idx` applies: the block is not
    /// done, and the transaction is one of the block that is not final.
    pub open spec fn open_to(&self, txn_idx: TxnIndex) -> bool {
        !self.done() && self.committed_count() <= txn_idx < self.block().len()
    }

    /// What `step` makes of the engine `before`. A move that does not apply
    /// (the block is done, the index is outside the block, the transaction
    /// is final) changes nothing; any other move does what the function of
    /// its name does.
    pub open spec fn step_effect(before: Self, after: Self, step: Step) -> bool {
        match step {
            Step::Execute(txn_idx) => if before.open_to(txn_idx) {
                Self::execute_effect(before, after, txn_idx)
            } else {
                after == before
            },
            Step::Validate(txn_idx) => if before.open_to(txn_idx) {
                Self::validate_effect(
                    before,
                    after,
                    txn_idx,
                    after.status_of(txn_idx) == TxnStatus::Executed,
                )
            } else {
                after == before
            },
            Step::Abort(txn_idx) => if before.open_to(txn_idx) {
                Self::abort_effect(before, after, txn_idx)
            } else {
                after == before
            },
            Step::Commit => if !before.done() {
                Self::commit_effect(before, after)
            } else {
                after == before
            },
        }
    }

    /// What a commit makes of the engine `before`. The results that were
    /// final stay. Unless the block
    /// fails, the lowest transaction that was not final is committed; if it
    /// returned `SkipRest`, every higher transaction is final too, skipped;
    /// otherwise every higher transaction stands where it stood. Which
    /// result is committed, or with which error the block fails, follows
    /// from the invariant: see `lemma_committed_is_serial`.
    pub open spec fn commit_effect(before: Self, after: Self) -> bool {
        let at = before.committed_count();
        let count = before.block().len();
        &&& after.executor() == before.executor()
        &&& after.block() == before.block()
        &&& after.base_state() == before.base_state()
        &&& after.handed_out() == before.handed_out()
        &&& after.handed_out_again() == before.handed_out_again()
        &&& after.speculative_writes() == before.speculative_writes()
        &&& after.estimates() == before.estimates()
        &&& forall|j: TxnIndex|
            at < j < count ==> #[trigger] after.recorded_reads(j) == before.recorded_reads(j)
                || after.halted_at().is_some()
        &&& match after.failure() {
            Some(abort) => {
                &&& abort.txn_idx == at
                &&& after.committed_results() == before.committed_results()
                &&& after.committed_state() == before.committed_state()
                &&& after.halted_at().is_none()
                &&& forall|j: TxnIndex|
                    at < j < count ==> #[trigger] after.status_of(j) == before.status_of(j)
            },
            None => {
                &&& after.committed_count() > at
                &&& after.committed_results().subrange(0, at as int) == before.committed_results()
                &&& after.status_of(at as TxnIndex) == TxnStatus::Committed
                &&& match after.halted_at() {
                    Some(halt) => {
                        &&& halt == at
                        &&& after.committed_count() == count
                        &&& forall|j: TxnIndex|
                            at < j < count ==> #[trigger] after.status_of(j)
                                == TxnStatus::SkippedDueToHalt
                    },
                    None => {
                        &&& after.committed_count() == at + 1
                        &&& forall|j: TxnIndex|
                            at < j < count ==> #[trigger] after.status_of(j) == before.status_of(j)
                    },
                }
            },
        }
    }

    /// Whether nothing is left to do: every transaction is final, or the
    /// block has failed.
    pub open spec fn done(&self) -> bool {
        self.failure().is_some() || self.committed_count() == self.block().len()
    }

    spec fn record_ok(
        executor: &X,
        txn: &X::Txn,
        txn_idx: TxnIndex,
        record: Option<ExecutionRecord<X::Output, X::Error>>,
    ) -> bool {
        match record {
            Some(r) => {
                &&& reads_hold(reads_view(r.reads@), r.seen@)
                &&& reads_view(r.reads@) == executor.reads(txn, txn_idx, r.seen@, false)
                &&& status_view(r.status) == executor.outcome(txn, txn_idx, r.seen@, false)
            },
            None => true,
        }
    }

    /// The engine's invariant: what is final is what serial execution gives
    /// for that prefix of the block, and every speculative execution on
    /// record is one that the executor makes over some state.
    pub closed spec fn inv(&self) -> bool {
        let executor = self.executor;
        let txns = self.txns@;
        &&& txns.len() <= TxnIndex::MAX
        &&& self.versions@.len() == txns.len()
        &&& self.estimates@.len() == txns.len()
        &&& self.records@.len() == txns.len()
        &&& self.results@.len() <= txns.len()
        &&& self.claims@.len() == txns.len()
        &&& self.next_to_execute <= txns.len()
        &&& self.next_to_validate <= txns.len()
        &&& match self.failure {
            None => serial_prefix(executor, txns, self.base@, self.results@.len()) == Ok::<
                SerialRun<X::Error>,
                BlockAbort<X::Error>,
            >(
                SerialRun {
                    results: results_view(self.results@),
                    state: self.committed@,
                    skipping: self.halted_at.is_some(),
                },
            ),
            Some(abort) => serial_block(executor, txns, self.base@) == Err::<
                SerialRun<X::Error>,
                BlockAbort<X::Error>,
            >(abort),
        }
        &&& self.halted_at matches Some(halt) ==> {
            &&& self.failure.is_none()
            &&& self.results@.len() == txns.len()
            &&& halt < txns.len()
            &&& results_view(self.results@)[halt as int] is SkipRest
        }
        &&& forall|j: int|
            self.results@.len() <= j < txns.len() ==> Self::record_ok(
                executor,
                &txns[j],
                j as TxnIndex,
                #[trigger] self.records@[j],
            )
    }

    /// Whether what is final is what serial execution gives: the results of
    /// executing that prefix of the block serially, over the state that
    /// serial execution leaves; or, for a block that has failed, the failure
    /// of its serial execution.
    pub open spec fn is_serial(&self) -> bool {
        let executor = self.executor();
        let txns = self.block();
        &&& self.committed_count() <= txns.len()
        &&& match self.failure() {
            None => serial_prefix(executor, txns, self.base_state(), self.committed_count())
                matches Ok(run) && run.results == self.committed_results() && run.state
                == self.committed_state(),
            Some(abort) => serial_block(executor, txns, self.base_state()) == Err::<
                SerialRun<X::Error>,
                BlockAbort<X::Error>,
            >(abort),
        }
    }

    /// Serial equivalence, in every state of the engine: what is final is
    /// what serial execution gives.
    pub proof fn lemma_committed_is_serial(&self)
        requires
            self.inv(),
        ensures
            self.is_serial(),
    {
    }

    /// An engine for the block `txns` over the state `base`: nothing is
    /// executed and nothing is final.
    pub fn new(executor: &'a X, txns: &'a Vec<X::Txn>, base: State) -> (engine: Self)
        requires
            txns.len() <= TxnIndex::MAX,
        ensures
            engine.inv(),
            engine.executor() == executor,
            engine.block() == txns@,
            engine.committed_count() == 0,
            engine.committed_state() == base@,
            engine.base_state() == base@,
            engine.failure().is_none(),
            engine.halted_at().is_none(),
            engine.handed_out() == 0,
            engine.handed_out_again() == 0,
            engine.speculative_writes() == Seq::new(
                txns@.len(),
                |i: int| Seq::<WriteView>::empty(),
            ),
            engine.estimates() == Seq::new(txns@.len(), |i: int| false),
            forall|i: TxnIndex| #[trigger] engine.status_of(i) == TxnStatus::Pending,
            forall|i: TxnIndex| (#[trigger] engine.recorded_reads(i)).is_none(),
    {
        let mut versions: Vec<Vec<(StateKey, WriteOp)>> = Vec::new();
        let mut estimates: Vec<bool> = Vec::new();
        let mut claims: Vec<Claim> = Vec::new();
        let mut records: Vec<Option<ExecutionRecord<X::Output, X::Error>>> = Vec::new();
        let mut i: usize = 0;
        while i < txns.len()
            invariant
                i <= txns.len(),
                versions.len() == i,
                forall|j: int| 0 <= j < i ==> (#[trigger] versions[j])@.len() == 0,
                estimates.len() == i,
                forall|j: int| 0 <= j < i ==> !(#[trigger] estimates[j]),
                claims.len() == i,
                forall|j: int| 0 <= j < i ==> (#[trigger] claims[j]) == Claim::Free,
                records.len() == i,
                forall|j: int| 0 <= j < i ==> (#[trigger] records[j]).is_none(),
            decreases txns.len() - i,
        {
            versions.push(Vec::new());
            estimates.push(false);
            claims.push(Claim::Free);
            records.push(None);
            i += 1;
        }
        let ghost base_view = base@;
        let engine = BlockExecutor {
            executor,
            txns,
            committed: base,
            versions,
            estimates,
            records,
            results: Vec::new(),
            claims,
            next_to_execute: 0,
            next_to_validate: 0,
            halted_at: None,
            failure: None,
            base: Ghost(base_view),
        };
        assert(results_view(engine.results@) =~= Seq::empty());
        assert forall|i: int| 0 <= i < txns@.len() implies #[trigger] versions_view(
            engine.versions@,
        )[i] == Seq::<WriteView>::empty() by {}
        engine
    }

    /// The number of transactions that are final.
    pub fn committed_len(&self) -> (count: usize)
        ensures
            count == self.committed_count(),
    {
        self.results.len()
    }

    /// Whether the block has failed.
    pub fn has_failed(&self) -> (failed: bool)
        ensures
            failed == self.failure().is_some(),
    {
        self.failure.is_some()
    }

    /// The result of `txn_idx`, if the transaction is final.
    pub fn committed_result(&self, txn_idx: TxnIndex) -> (result: Option<
        &ExecutionStatus<X::Output, X::Error>,
    >)
        ensures
            match result {
                Some(status) => txn_idx < self.committed_count() && status_view(*status)
                    == self.committed_results()[txn_idx as int],
                None => txn_idx >= self.committed_count(),
            },
    {
        if (txn_idx as usize) < self.results.len() {
            Some(&self.results[txn_idx as usize])
        } else {
            None
        }
    }

    /// Where `txn_idx` stands.
    pub fn status(&self, txn_idx: TxnIndex) -> (status: TxnStatus)
        ensures
            status == self.status_of(txn_idx),
    {
        let i = txn_idx as usize;
        if i < self.results.len() {
            match self.halted_at {
                Some(halt) => if halt < txn_idx {
                    TxnStatus::SkippedDueToHalt
                } else {
                    TxnStatus::Committed
                },
                None => TxnStatus::Committed,
            }
        } else if i < self.claims.len() && self.claims[i] == Claim::Executing {
            TxnStatus::Executing
        } else if i >= self.records.len() || self.records[i].is_none() {
            TxnStatus::Pending
        } else if i < self.claims.len() && self.claims[i] == Claim::Validating {
            TxnStatus::Validating
        } else {
            TxnStatus::Executed
        }
    }
}

impl<'a, X: ExecutorTask> BlockExecutor<'a, X> {
    /// Runs the lowest transaction that is not final over the committed
    /// state, which is the state that its predecessors leave.
    fn run_at_commit(&self, materialize_deltas: bool) -> (status:
        ExecutionStatus<X::Output, X::Error>)
        requires
            self.inv(),
            self.committed_count() < self.block().len(),
        ensures
            status_view(status) == self.executor().outcome(
                &self.block()[self.committed_count() as int],
                self.committed_count() as TxnIndex,
                self.committed_state(),
                materialize_deltas,
            ),
    {
        let executor = self.executor;
        let txns = self.txns;
        let at = self.results.len();
        let mut view = LatestView::new(
            &self.committed,
            &self.versions,
            &self.estimates,
            at,
            at as TxnIndex,
        );
        let status = executor.execute_transaction(
            &mut view,
            &txns[at],
            at as TxnIndex,
            materialize_deltas,
        );
        proof {
            // Nothing lies between the committed state and this transaction,
            // so no read can have met a dependency.
            if view.blocked_on().is_some() {
                view.lemma_blocked_on_a_key();
            }
        }
        status
    }

    /// Discards the speculative execution of `txn_idx`, if there is one.
    /// What it wrote stays in place as an estimate: a read that finds it
    /// meets a dependency.
    fn discard(&mut self, txn_idx: TxnIndex)
        requires
            old(self).inv(),
            old(self).committed_count() <= txn_idx < old(self).block().len(),
        ensures
            final(self).inv(),
            Self::abort_effect(*old(self), *final(self), txn_idx),
    {
        self.records.set(txn_idx as usize, None);
        self.estimates.set(txn_idx as usize, true);
        self.claims.set(txn_idx as usize, Claim::Free);
    }

    /// Executes `txn_idx` speculatively, over the committed state and the
    /// writes of the speculative executions below it, and puts the
    /// execution on record. An execution that meets a dependency or aborts
    /// with a speculative error leaves nothing on record: the transaction
    /// is pending again, and what it wrote before is an estimate.
    pub fn execute(&mut self, txn_idx: TxnIndex)
        requires
            old(self).inv(),
            old(self).committed_count() <= txn_idx < old(self).block().len(),
        ensures
            final(self).inv(),
            Self::execute_effect(*old(self), *final(self), txn_idx),
    {
        let executor = self.executor;
        let txns = self.txns;
        let at = txn_idx as usize;
        let mut view = LatestView::new(
            &self.committed,
            &self.versions,
            &self.estimates,
            self.results.len(),
            txn_idx,
        );
        let ghost seen = view.snapshot();
        let ghost fresh = view;
        let status = executor.execute_transaction(&mut view, &txns[at], txn_idx, false);
        proof {
            let reads = executor.reads(&txns@[txn_idx as int], txn_idx, seen, false);
            assert(fresh.blocks_any(reads) == old(self).blocks_any(txn_idx, reads));
        }
        let blocked = view.dependency().is_some();
        let reads = view.into_reads();
        let retry = blocked || match &status {
            ExecutionStatus::Abort(error) => error.categorize()
                == ErrorCategory::SpeculativeExecutionAbortError,
            _ => false,
        };
        if retry {
            self.discard(txn_idx);
        } else {
            let writes = match &status {
                ExecutionStatus::Success(output) => state_writes_of(output),
                ExecutionStatus::SkipRest(output) => state_writes_of(output),
                ExecutionStatus::Abort(_) => Vec::new(),
            };
            assert(writes_view(writes@) =~= writes_of(status_view(status)));
            self.versions.set(at, writes);
            assert(versions_view(self.versions@) =~= versions_view(old(self).versions@).update(
                at as int,
                writes_view(writes@),
            ));
            self.estimates.set(at, false);
            self.claims.set(at, Claim::Free);
            self.records.set(at, Some(ExecutionRecord { reads, status, seen: Ghost(seen) }));
        }
    }

    /// Checks the speculative execution of `txn_idx` against the state that
    /// it would run on now. If a read would be answered differently or
    /// would meet a dependency, the execution is discarded and the
    /// transaction is pending again.
    pub fn validate(&mut self, txn_idx: TxnIndex) -> (valid: bool)
        requires
            old(self).inv(),
            old(self).committed_count() <= txn_idx < old(self).block().len(),
        ensures
            final(self).inv(),
            Self::validate_effect(*old(self), *final(self), txn_idx, valid),
    {
        let at = txn_idx as usize;
        let mut valid = false;
        match &self.records[at] {
            Some(record) => {
                let mut view = LatestView::new(
                    &self.committed,
                    &self.versions,
                    &self.estimates,
                    self.results.len(),
                    txn_idx,
                );
                let ghost now = view.snapshot();
                let ghost reads = reads_view(record.reads@);
                let mut i: usize = 0;
                valid = true;
                while i < record.reads.len() && valid
                    invariant
                        i <= record.reads.len(),
                        reads == reads_view(record.reads@),
                        view.wf(),
                        view.snapshot() == now,
                        forall|key: StateKey|
                            #[trigger] view.blocking(key) == old(self).blocking_for(txn_idx, key),
                        valid ==> forall|k: int|
                            0 <= k < i ==> lookup(now, (#[trigger] reads[k]).0) == reads[k].1
                                && old(self).blocking_for(txn_idx, reads[k].0).is_none(),
                        !valid ==> exists|k: int|
                            0 <= k < reads.len() && (lookup(now, (#[trigger] reads[k]).0)
                                != reads[k].1 || old(self).blocking_for(
                                txn_idx,
                                reads[k].0,
                            ).is_some()),
                    decreases record.reads.len() - i + (if valid { 1int } else { 0int }),
                {
                    let same = match view.get(record.reads[i].0) {
                        ReadResult::Resolved(answer) => same_optional_bytes(
                            &answer,
                            &record.reads[i].1,
                        ),
                        ReadResult::Dependency(_) => false,
                    };
                    if !same {
                        assert(lookup(now, reads[i as int].0) != reads[i as int].1 || old(
                            self,
                        ).blocking_for(txn_idx, reads[i as int].0).is_some());
                        valid = false;
                    } else {
                        i += 1;
                    }
                }
            },
            None => {},
        }
        if valid {
            self.claims.set(at, Claim::Free);
        } else {
            self.discard(txn_idx);
        }
        valid
    }

    /// Discards the speculative execution of `txn_idx`, as a failed
    /// validation does: the transaction is pending again.
    pub fn abort(&mut self, txn_idx: TxnIndex)
        requires
            old(self).inv(),
            old(self).committed_count() <= txn_idx < old(self).block().len(),
        ensures
            final(self).inv(),
            Self::abort_effect(*old(self), *final(self), txn_idx),
    {
        self.discard(txn_idx);
    }
}

impl<'a, X: ExecutorTask> BlockExecutor<'a, X> {
    /// Makes the lowest transaction that is not final final, with `status`
    /// as its result. A success writes to the committed state. A `SkipRest`
    /// also makes every higher transaction final at once, with the skip
    /// output. An abort is recorded if it is a valid error and fails the
    /// block otherwise.
    fn settle(&mut self, status: ExecutionStatus<X::Output, X::Error>)
        requires
            old(self).inv(),
            old(self).committed_count() < old(self).block().len(),
            old(self).failure().is_none(),
            status_view(status) == old(self).executor().outcome(
                &old(self).block()[old(self).committed_count() as int],
                old(self).committed_count() as TxnIndex,
                old(self).committed_state(),
                true,
            ),
        ensures
            final(self).inv(),
            Self::commit_effect(*old(self), *final(self)),
    {
        let executor = self.executor;
        let txns = self.txns;
        let at = self.results.len();
        let ghost before = SerialRun {
            results: results_view(self.results@),
            state: self.committed@,
            skipping: false,
        };
        match status {
            ExecutionStatus::Success(output) => {
                let writes = state_writes_of(&output);
                self.committed.apply(&writes);
                self.results.push(ExecutionStatus::Success(output));
                assert(results_view(self.results@) =~= before.results.push(status_view(status)));
                assert(results_view(self.results@).subrange(0, at as int) =~= before.results);
            },
            ExecutionStatus::SkipRest(output) => {
                let writes = state_writes_of(&output);
                self.committed.apply(&writes);
                self.results.push(ExecutionStatus::SkipRest(output));
                assert(results_view(self.results@) =~= before.results.push(status_view(status)));
                while self.results.len() < txns.len()
                    invariant
                        at < self.results@.len() <= txns@.len() <= TxnIndex::MAX,
                        executor == self.executor,
                        txns == self.txns,
                        self.executor == old(self).executor,
                        self.txns == old(self).txns,
                        self.versions == old(self).versions,
                        self.estimates == old(self).estimates,
                        self.claims == old(self).claims,
                        self.next_to_execute == old(self).next_to_execute,
                        self.next_to_validate == old(self).next_to_validate,
                        self.records == old(self).records,
                        self.base == old(self).base,
                        self.failure.is_none(),
                        results_view(self.results@).subrange(0, at as int) == before.results,
                        results_view(self.results@)[at as int] is SkipRest,
                        serial_prefix(executor, txns@, self.base@, self.results@.len()) == Ok::<
                            SerialRun<X::Error>,
                            BlockAbort<X::Error>,
                        >(
                            SerialRun {
                                results: results_view(self.results@),
                                state: self.committed@,
                                skipping: true,
                            },
                        ),
                    decreases txns.len() - self.results.len(),
                {
                    let ghost run = SerialRun {
                        results: results_view(self.results@),
                        state: self.committed@,
                        skipping: true,
                    };
                    let ghost so_far = results_view(self.results@);
                    self.results.push(ExecutionStatus::Success(X::Output::skip_output()));
                    assert(results_view(self.results@) =~= skipped(run).results);
                }
                self.halted_at = Some(at as TxnIndex);
            },
            ExecutionStatus::Abort(error) => {
                if error.categorize() == ErrorCategory::ValidError {
                    self.results.push(ExecutionStatus::Abort(error));
                    assert(results_view(self.results@) =~= before.results.push(
                        status_view(status),
                    ));
                    assert(results_view(self.results@).subrange(0, at as int) =~= before.results);
                } else {
                    proof {
                        lemma_failure_is_final(
                            executor,
                            txns@,
                            self.base@,
                            (at + 1) as nat,
                            txns@.len(),
                        );
                    }
                    self.failure = Some(BlockAbort { txn_idx: at as TxnIndex, error });
                }
            },
        }
    }

    /// Makes the lowest transaction that is not final final. Its
    /// speculative execution is taken if the committed state answers its
    /// reads as they were answered; otherwise the transaction is executed
    /// again, over the committed state. Deferred deltas are resolved over
    /// the committed state and folded into the output; where one does not
    /// resolve, the transaction is executed with its deltas materialized.
    pub fn commit_next(&mut self)
        requires
            old(self).inv(),
            old(self).committed_count() < old(self).block().len(),
            old(self).failure().is_none(),
        ensures
            final(self).inv(),
            final(self).is_serial(),
            Self::commit_effect(*old(self), *final(self)),
    {
        let executor = self.executor;
        let txns = self.txns;
        let at = self.results.len();
        let ghost txn = txns@[at as int];
        let ghost exact = self.committed@;
        let record = self.records[at].take();
        assert(self.inv());
        let deferred = match record {
            Some(taken) => {
                if reads_still_hold(&taken.reads, &self.committed) {
                    proof {
                        executor.lemma_reads_decide(
                            &txn,
                            at as TxnIndex,
                            taken.seen@,
                            exact,
                            false,
                        );
                    }
                    taken.status
                } else {
                    self.run_at_commit(false)
                }
            },
            None => self.run_at_commit(false),
        };
        proof {
            executor.lemma_deferred_deltas(&txn, at as TxnIndex, exact);
        }
        let status = match deferred {
            ExecutionStatus::Success(output) => {
                let mut output = output;
                let deltas = output.aggregator_v1_delta_set();
                match resolve_deltas(&self.committed, &deltas) {
                    Some(writes) => {
                        output.incorporate_delta_writes(writes);
                        ExecutionStatus::Success(output)
                    },
                    None => self.run_at_commit(true),
                }
            },
            ExecutionStatus::SkipRest(output) => {
                let mut output = output;
                let deltas = output.aggregator_v1_delta_set();
                match resolve_deltas(&self.committed, &deltas) {
                    Some(writes) => {
                        output.incorporate_delta_writes(writes);
                        ExecutionStatus::SkipRest(output)
                    },
                    None => self.run_at_commit(true),
                }
            },
            ExecutionStatus::Abort(error) => ExecutionStatus::Abort(error),
        };
        self.settle(status);
    }

    /// Makes the lowest transaction that is not final final by executing it
    /// over the committed state with its deltas materialized, as serial
    /// execution does.
    pub fn commit_next_sequential(&mut self)
        requires
            old(self).inv(),
            old(self).committed_count() < old(self).block().len(),
            old(self).failure().is_none(),
        ensures
            final(self).inv(),
            final(self).is_serial(),
            Self::commit_effect(*old(self), *final(self)),
    {
        let status = self.run_at_commit(true);
        self.settle(status);
    }

    /// Makes one move. A move that does not apply (an index outside the
    /// block, a transaction that is final already, a block that is done)
    /// changes nothing.
    pub fn step(&mut self, step: Step)
        requires
            old(self).inv(),
        ensures
            final(self).inv(),
            final(self).is_serial(),
            final(self).executor() == old(self).executor(),
            final(self).block() == old(self).block(),
            final(self).base_state() == old(self).base_state(),
            Self::step_effect(*old(self), *final(self), step),
    {
        let txns = self.txns;
        if self.failure.is_some() || self.results.len() >= txns.len() {
            return ;
        }
        match step {
            Step::Execute(txn_idx) => {
                if self.results.len() <= txn_idx as usize && (txn_idx as usize) < txns.len() {
                    self.execute(txn_idx);
                }
            },
            Step::Validate(txn_idx) => {
                if self.results.len() <= txn_idx as usize && (txn_idx as usize) < txns.len() {
                    let _ = self.validate(txn_idx);
                }
            },
            Step::Abort(txn_idx) => {
                if self.results.len() <= txn_idx as usize && (txn_idx as usize) < txns.len() {
                    self.abort(txn_idx);
                }
            },
            Step::Commit => {
                self.commit_next();
            },
        }
    }

    /// The next move for a worker that has nothing to do, or none when the
    /// block is done. Every transaction that is not final is handed out
    /// once, in index order, for a speculative execution. Then every
    /// transaction that is not final is handed out once more, in index
    /// order: for a validation if an execution is on record, for another
    /// execution if none is. After that the move is to commit. A
    /// transaction that is handed out is executing or validating until the
    /// move is made.
    pub fn next_task(&mut self) -> (task: Option<Step>)
        requires
            old(self).inv(),
        ensures
            final(self).inv(),
            Self::task_effect(*old(self), *final(self), task),
    {
        let txns = self.txns;
        if self.failure.is_some() || self.results.len() >= txns.len() {
            return None;
        }
        let first = if self.next_to_execute < self.results.len() {
            self.results.len()
        } else {
            self.next_to_execute
        };
        if first < txns.len() {
            self.next_to_execute = first + 1;
            self.claims.set(first, Claim::Executing);
            return Some(Step::Execute(first as TxnIndex));
        }
        let again = if self.next_to_validate < self.results.len() {
            self.results.len()
        } else {
            self.next_to_validate
        };
        if again < txns.len() {
            self.next_to_validate = again + 1;
            if self.records[again].is_some() {
                self.claims.set(again, Claim::Validating);
                Some(Step::Validate(again as TxnIndex))
            } else {
                self.claims.set(again, Claim::Executing);
                Some(Step::Execute(again as TxnIndex))
            }
        } else {
            Some(Step::Commit)
        }
    }

    /// Makes the moves of `next_task` until the block is done.
    pub fn drain(&mut self)
        requires
            old(self).inv(),
        ensures
            final(self).inv(),
            final(self).is_serial(),
            final(self).done(),
            final(self).executor() == old(self).executor(),
            final(self).block() == old(self).block(),
            final(self).base_state() == old(self).base_state(),
            old(self).done() ==> final(self).committed_results() == old(
                self,
            ).committed_results() && final(self).failure() == old(self).failure(),
    {
        loop
            invariant
                self.inv(),
                self.executor() == old(self).executor(),
                self.block() == old(self).block(),
                self.base_state() == old(self).base_state(),
                old(self).done() ==> self.committed_results() == old(self).committed_results()
                    && self.failure() == old(self).failure(),
            ensures
                self.done(),
            decreases
                    (if self.failure().is_some() {
                        0
                    } else {
                        1 + 3 * self.block().len() - self.committed_count() - self.handed_out()
                            - self.handed_out_again()
                    }),
        {
            proof {
                self.lemma_committed_is_serial();
                self.lemma_handed_out_in_block();
            }
            match self.next_task() {
                None => {
                    break ;
                },
                Some(step) => {
                    self.step(step);
                },
            }
            proof {
                self.lemma_committed_is_serial();
                self.lemma_handed_out_in_block();
            }
        }
    }

    /// No more transactions are handed out than the block has.
    pub proof fn lemma_handed_out_in_block(&self)
        requires
            self.inv(),
        ensures
            self.handed_out() <= self.block().len(),
            self.handed_out_again() <= self.block().len(),
    {
    }

    /// Skip propagation: once a transaction has ended the block with
    /// `SkipRest`, every higher transaction is final with exactly the skip
    /// output.
    pub proof fn lemma_halt_skips_the_rest(&self, txn_idx: TxnIndex)
        requires
            self.inv(),
            self.halted_at() matches Some(halt) && halt < txn_idx < self.block().len(),
        ensures
            self.status_of(txn_idx) == TxnStatus::SkippedDueToHalt,
            self.committed_results()[txn_idx as int] == ExecutionStatus::<
                OutputView,
                X::Error,
            >::Success(OutputView::skip()),
    {
        lemma_skip_propagates(
            self.executor,
            self.txns@,
            self.base@,
            self.txns@.len(),
            self.halted_at->Some_0 as int,
            txn_idx as int,
        );
    }

    /// No final result holds an aggregator delta: every delta was resolved
    /// to a write when its transaction was committed.
    pub proof fn lemma_committed_are_materialized(&self, txn_idx: TxnIndex)
        requires
            self.inv(),
            self.failure().is_none(),
            txn_idx < self.committed_count(),
        ensures
            match self.committed_results()[txn_idx as int] {
                ExecutionStatus::Success(output) => output.aggregator_v1_deltas.len() == 0,
                ExecutionStatus::SkipRest(output) => output.aggregator_v1_deltas.len() == 0,
                ExecutionStatus::Abort(_) => true,
            },
    {
        lemma_no_residual_deltas(
            self.executor,
            self.txns@,
            self.base@,
            self.results@.len(),
            txn_idx as int,
        );
    }

    /// Category routing: an abort among the final results carries a valid
    /// error, and is what its transaction returned over the state of its
    /// predecessors; a speculative error or a code invariant error is never
    /// among them. A block fails only with an error that is not a valid
    /// error.
    pub proof fn lemma_errors_are_routed(&self, txn_idx: TxnIndex)
        requires
            self.inv(),
        ensures
            self.failure().is_none() && txn_idx < self.committed_count()
                && self.committed_results()[txn_idx as int] is Abort ==> {
                let error = self.committed_results()[txn_idx as int]->Abort_0;
                &&& error.category() == ErrorCategory::ValidError
                &&& serial_prefix(
                    self.executor(),
                    self.block(),
                    self.base_state(),
                    txn_idx as nat,
                ) matches Ok(before) && self.executor().outcome(
                    &self.block()[txn_idx as int],
                    txn_idx,
                    before.state,
                    true,
                ) == ExecutionStatus::<OutputView, X::Error>::Abort(error)
            },
            self.failure() matches Some(abort) ==> abort.error.category()
                != ErrorCategory::ValidError,
    {
        if self.failure.is_none() && txn_idx < self.results@.len() {
            lemma_recorded_results(
                self.executor,
                self.txns@,
                self.base@,
                self.results@.len(),
                txn_idx as int,
            );
        }
        if self.failure.is_some() {
            lemma_failure_cause(self.executor, self.txns@, self.base@, self.txns@.len());
        }
    }

    /// Ends a block that is done and hands out its results, or its failure.
    pub fn finish(self) -> (result: Result<
        BlockOutput<X::Output, X::Error>,
        BlockAbort<X::Error>,
    >)
        requires
            self.inv(),
            self.done(),
        ensures
            matches_serial(
                result,
                serial_block(self.executor(), self.block(), self.base_state()),
            ),
            match result {
                Ok(output) => self.failure().is_none() && results_view(output.results@)
                    == self.committed_results() && output.state@ == self.committed_state(),
                Err(abort) => self.failure() == Some(abort),
            },
    {
        match self.failure {
            Some(abort) => Err(abort),
            None => Ok(BlockOutput { results: self.results, state: self.committed }),
        }
    }
}

/// Executes a block. The moves of `schedule` are made first, in order; they
/// stand for whatever the workers happened to do, and any sequence of them
/// is accepted. Then the engine makes its own moves until the block is
/// done.
///
/// Whatever the schedule holds, however often it executes, validates or
/// aborts a transaction, the result is that of executing every
/// transaction once, strictly in index order, with its deltas materialized:
/// the same results over the same final state, or the same failure.
pub fn execute_block<X: ExecutorTask>(
    executor: &X,
    txns: &Vec<X::Txn>,
    base: State,
    schedule: &Vec<Step>,
) -> (result: Result<BlockOutput<X::Output, X::Error>, BlockAbort<X::Error>>)
    requires
        txns.len() <= TxnIndex::MAX,
    ensures
        matches_serial(result, serial_block(executor, txns@, base@)),
{
    let mut engine = BlockExecutor::new(executor, txns, base);
    let mut i: usize = 0;
    while i < schedule.len()
        invariant
            i <= schedule.len(),
            engine.inv(),
            engine.executor() == executor,
            engine.block() == txns@,
            engine.base_state() == base@,
        decreases schedule.len() - i,
    {
        engine.step(schedule[i]);
        i += 1;
    }
    engine.drain();
    engine.finish()
}

/// Executes a block serially: every transaction once, in index order, over
/// the state that its predecessors left and with its deltas materialized.
pub fn execute_block_sequential<X: ExecutorTask>(
    executor: &X,
    txns: &Vec<X::Txn>,
    base: State,
) -> (result: Result<BlockOutput<X::Output, X::Error>, BlockAbort<X::Error>>)
    requires
        txns.len() <= TxnIndex::MAX,
    ensures
        matches_serial(result, serial_block(executor, txns@, base@)),
{
    let mut engine = BlockExecutor::new(executor, txns, base);
    while !engine.has_failed() && engine.committed_len() < txns.len()
        invariant
            engine.inv(),
            engine.executor() == executor,
            engine.block() == txns@,
            engine.base_state() == base@,
        decreases
                (if engine.failure().is_some() {
                    0
                } else {
                    1 + txns.len() - engine.committed_count()
                }),
    {
        proof {
            engine.lemma_committed_is_serial();
        }
        engine.commit_next_sequential();
        proof {
            engine.lemma_committed_is_serial();
        }
    }
    proof {
        engine.lemma_committed_is_serial();
    }
    engine.finish()
}

} // verus!
