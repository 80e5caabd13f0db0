use crate::delta::DeltaOp;
use crate::materialize::{materialized, status_view};
use crate::output::{
    events_view, payloads_view, resource_writes_view, DelayedChange, DelayedFieldID, Event,
    FeeStatement, OutputView, ResourceWrite,
};
use crate::state::{writes_view, StateKey, StateView, WriteOp};
use crate::view::{reads_hold, LatestView, ReadView};
use vstd::prelude::*;

verus! {

/// Position of a transaction in the block's intended serial order.
pub type TxnIndex = u32;

/// The execution result of a transaction.
#[derive(Debug)]
pub enum ExecutionStatus<O, E> {
    /// Transaction was executed successfully.
    Success(O),
    /// Transaction hit an unrecoverable error during execution; the payload
    /// says how the engine has to react.
    Abort(E),
    /// Transaction was executed successfully, but the trailing transactions
    /// of the block must be skipped.
    SkipRest(O),
}

/// Inference result of a transaction: the keys it is expected to touch.
pub struct Accesses<K> {
    pub keys_read: Vec<K>,
    pub keys_written: Vec<K>,
}

/// How the engine reacts to an abort.
#[derive(Debug, Clone, Copy, PartialEq, Eq, Structural)]
pub enum ErrorCategory {
    /// An internal consistency violation: fatal for the whole block.
    CodeInvariantError,
    /// Expected under optimistic concurrency: the transaction is retried.
    SpeculativeExecutionAbortError,
    /// A legitimate failure of the transaction: recorded as its outcome.
    ValidError,
}

/// An error that says how the engine has to react to it.
pub trait CategorizeError {
    /// The category of this error, as a function of the error value.
    spec fn category(&self) -> ErrorCategory;

    /// The category of this error.
    fn categorize(&self) -> (category: ErrorCategory)
        ensures
            category == self.category(),
    ;
}

impl CategorizeError for usize {
    open spec fn category(&self) -> ErrorCategory {
        ErrorCategory::ValidError
    }

    fn categorize(&self) -> (category: ErrorCategory) {
        ErrorCategory::ValidError
    }
}

/// A single-threaded transaction executor. What it returns for a transaction
/// is a function of the transaction, its index, the state that the view
/// answers from, and the materialization flag.
pub trait ExecutorTask: Sync + Sized {
    /// Type of the transactions.
    type Txn;

    /// The output of a transaction: all of its side effects.
    type Output: TransactionOutput;

    /// Type of error when the executor fails to process a transaction and
    /// needs to abort.
    type Error: CategorizeError;

    /// Type to initialize an executor. It is `Copy` because one executor is
    /// made on each worker.
    type Argument: Sync + Copy;

    /// The reads that an execution over `state` makes, in order, each with
    /// the answer that it got.
    spec fn reads(
        &self,
        txn: &Self::Txn,
        txn_idx: TxnIndex,
        state: StateView,
        materialize_deltas: bool,
    ) -> Seq<ReadView>;

    /// What an execution over `state` returns.
    spec fn outcome(
        &self,
        txn: &Self::Txn,
        txn_idx: TxnIndex,
        state: StateView,
        materialize_deltas: bool,
    ) -> ExecutionStatus<OutputView, Self::Error>;

    /// An execution depends on the state only through its reads: over a
    /// state that answers the reads of an execution as they were answered,
    /// the execution reads and returns the same.
    proof fn lemma_reads_decide(
        &self,
        txn: &Self::Txn,
        txn_idx: TxnIndex,
        seen: StateView,
        other: StateView,
        materialize_deltas: bool,
    )
        requires
            reads_hold(self.reads(txn, txn_idx, seen, materialize_deltas), other),
        ensures
            self.reads(txn, txn_idx, other, materialize_deltas) == self.reads(
                txn,
                txn_idx,
                seen,
                materialize_deltas,
            ),
            self.outcome(txn, txn_idx, other, materialize_deltas) == self.outcome(
                txn,
                txn_idx,
                seen,
                materialize_deltas,
            ),
    ;

    /// Deferring the deltas changes nothing: where the deltas of a deferred
    /// execution resolve over the state that it ran on, folding them in
    /// gives what the execution returns when it resolves them itself.
    proof fn lemma_deferred_deltas(&self, txn: &Self::Txn, txn_idx: TxnIndex, state: StateView)
        ensures
            materialized(self.outcome(txn, txn_idx, state, false), state) matches Some(status)
                ==> status == self.outcome(txn, txn_idx, state, true),
    ;

    /// An execution that materializes its deltas leaves none in its output.
    proof fn lemma_materialized_deltas(&self, txn: &Self::Txn, txn_idx: TxnIndex, state: StateView)
        ensures
            match self.outcome(txn, txn_idx, state, true) {
                ExecutionStatus::Success(output) => output.aggregator_v1_deltas.len() == 0,
                ExecutionStatus::SkipRest(output) => output.aggregator_v1_deltas.len() == 0,
                ExecutionStatus::Abort(_) => true,
            },
    ;

    /// Create an instance of the transaction executor.
    fn init(args: Self::Argument) -> Self;

    /// Execute a single transaction given the view of the current state.
    /// All reads go through `view`, which records them. An execution meets
    /// a dependency exactly if one of the keys that it reads is one that the
    /// view is blocked on; it then gives up with a speculative error. Any
    /// other execution reads and returns what `reads` and `outcome` say.
    fn execute_transaction(
        &self,
        view: &mut LatestView,
        txn: &Self::Txn,
        txn_idx: TxnIndex,
        materialize_deltas: bool,
    ) -> (status: ExecutionStatus<Self::Output, Self::Error>)
        requires
            old(view).wf(),
            old(view).index() == txn_idx,
            old(view).captured_reads().len() == 0,
            old(view).blocked_on().is_none(),
        ensures
            final(view).wf(),
            final(view).index() == txn_idx,
            final(view).snapshot() == old(view).snapshot(),
            forall|key: StateKey| #[trigger] final(view).blocking(key) == old(view).blocking(key),
            final(view).blocked_on().is_some() == old(view).blocks_any(
                self.reads(txn, txn_idx, old(view).snapshot(), materialize_deltas),
            ),
            match final(view).blocked_on() {
                Some(_) => status matches ExecutionStatus::Abort(error) && error.category()
                    == ErrorCategory::SpeculativeExecutionAbortError,
                None => {
                    &&& final(view).captured_reads() == self.reads(
                        txn,
                        txn_idx,
                        old(view).snapshot(),
                        materialize_deltas,
                    )
                    &&& status_view(status) == self.outcome(
                        txn,
                        txn_idx,
                        old(view).snapshot(),
                        materialize_deltas,
                    )
                },
            },
    ;
}

/// The execution result of a single transaction: its side effects, kept
/// apart by kind.
pub trait TransactionOutput: View<V = OutputView> + Sized {
    /// The writes to resources.
    fn resource_write_set(&self) -> (writes: Vec<ResourceWrite>)
        ensures
            resource_writes_view(writes@) == self@.resource_writes,
    ;

    /// The writes to modules.
    fn module_write_set(&self) -> (writes: Vec<(StateKey, WriteOp)>)
        ensures
            writes_view(writes@) == self@.module_writes,
    ;

    /// The absolute writes to aggregators.
    fn aggregator_v1_write_set(&self) -> (writes: Vec<(StateKey, WriteOp)>)
        ensures
            writes_view(writes@) == self@.aggregator_v1_writes,
    ;

    /// The relative changes to aggregators.
    fn aggregator_v1_delta_set(&self) -> (deltas: Vec<(StateKey, DeltaOp)>)
        ensures
            deltas@ == self@.aggregator_v1_deltas,
    ;

    /// The changes to delayed fields.
    fn delayed_field_change_set(&self) -> (changes: Vec<(DelayedFieldID, DelayedChange)>)
        ensures
            changes@ == self@.delayed_field_changes,
    ;

    /// The events of the transaction, in the order in which it emitted them.
    fn get_events(&self) -> (events: Vec<Event>)
        ensures
            events_view(events@) == self@.events,
    ;

    /// The output of a transaction that comes after a `SkipRest`.
    fn skip_output() -> (output: Self)
        ensures
            output@ == OutputView::skip(),
    ;

    /// Folds the resolved aggregator deltas into the output: afterwards no
    /// delta is left. The engine calls this when the transaction's place in
    /// the block is final.
    fn incorporate_delta_writes(&mut self, delta_writes: Vec<(StateKey, WriteOp)>)
        ensures
            final(self)@ == old(self)@.with_delta_writes(writes_view(delta_writes@)),
            final(self)@.aggregator_v1_deltas.len() == 0,
    ;

    /// Folds resolved aggregator deltas, patched resource values and patched
    /// events into the output: afterwards no deferred change is left. This
    /// is for the time when the transaction's place in the block is final.
    fn incorporate_materialized_txn_output(
        &mut self,
        aggregator_v1_writes: Vec<(StateKey, WriteOp)>,
        patched_resource_write_set: Vec<(StateKey, WriteOp)>,
        patched_events: Vec<Vec<u8>>,
    )
        ensures
            final(self)@ == old(self)@.with_materialized(
                writes_view(aggregator_v1_writes@),
                writes_view(patched_resource_write_set@),
                payloads_view(patched_events@),
            ),
            final(self)@.is_materialized(),
    ;

    /// The fee statement of the transaction.
    fn fee_statement(&self) -> (fee: FeeStatement)
        ensures
            fee == self@.fee_statement,
    ;
}

} // verus!
