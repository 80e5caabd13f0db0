use crate::output::OutputView;
use crate::state::{apply_writes, StateView};
use crate::task::{CategorizeError, ErrorCategory, ExecutionStatus, ExecutorTask, TxnIndex};
use vstd::prelude::*;

verus! {

/// The failure of a whole block: the transaction that hit it, and its error.
#[derive(Debug)]
pub struct BlockAbort<E> {
    pub txn_idx: TxnIndex,
    pub error: E,
}

/// Where a serial execution stands after a prefix of the block.
pub struct SerialRun<E> {
    /// The result of each transaction of the prefix.
    pub results: Seq<ExecutionStatus<OutputView, E>>,
    /// The state that the prefix leaves.
    pub state: StateView,
    /// Whether a transaction of the prefix asked to skip the rest.
    pub skipping: bool,
}

/// The run after a transaction that returned `status` at index `txn_idx`.
/// A success writes to the state; a `SkipRest` also ends execution for the
/// rest of the block; an abort is recorded if it is a valid error and fails
/// the block otherwise.
pub open spec fn settled<E: CategorizeError>(
    run: SerialRun<E>,
    txn_idx: TxnIndex,
    status: ExecutionStatus<OutputView, E>,
) -> Result<SerialRun<E>, BlockAbort<E>> {
    match status {
        ExecutionStatus::Success(output) => Ok(
            SerialRun {
                results: run.results.push(status),
                state: apply_writes(run.state, output.state_writes()),
                skipping: false,
            },
        ),
        ExecutionStatus::SkipRest(output) => Ok(
            SerialRun {
                results: run.results.push(status),
                state: apply_writes(run.state, output.state_writes()),
                skipping: true,
            },
        ),
        ExecutionStatus::Abort(error) => if error.category() == ErrorCategory::ValidError {
            Ok(SerialRun { results: run.results.push(status), ..run })
        } else {
            Err(BlockAbort { txn_idx, error })
        },
    }
}

/// The run after a skipped transaction: it has the skip output and changes
/// nothing.
pub open spec fn skipped<E>(run: SerialRun<E>) -> SerialRun<E> {
    SerialRun { results: run.results.push(ExecutionStatus::Success(OutputView::skip())), ..run }
}

/// Executing the first `count` transactions once each, strictly in index
/// order, each over the state that its predecessors left and with its
/// deltas materialized.
pub open spec fn serial_prefix<X: ExecutorTask>(
    executor: &X,
    txns: Seq<X::Txn>,
    base: StateView,
    count: nat,
) -> Result<SerialRun<X::Error>, BlockAbort<X::Error>>
    decreases count,
{
    if count == 0 {
        Ok(SerialRun { results: Seq::empty(), state: base, skipping: false })
    } else {
        match serial_prefix(executor, txns, base, (count - 1) as nat) {
            Err(abort) => Err(abort),
            Ok(run) => if run.skipping {
                Ok(skipped(run))
            } else {
                settled(
                    run,
                    (count - 1) as TxnIndex,
                    executor.outcome(&txns[count - 1], (count - 1) as TxnIndex, run.state, true),
                )
            },
        }
    }
}

/// Executing the whole block serially.
pub open spec fn serial_block<X: ExecutorTask>(
    executor: &X,
    txns: Seq<X::Txn>,
    base: StateView,
) -> Result<SerialRun<X::Error>, BlockAbort<X::Error>> {
    serial_prefix(executor, txns, base, txns.len())
}

/// A serial execution that failed on a prefix fails in the same way on
/// every longer prefix.
pub proof fn lemma_failure_is_final<X: ExecutorTask>(
    executor: &X,
    txns: Seq<X::Txn>,
    base: StateView,
    count: nat,
    longer: nat,
)
    requires
        count <= longer,
        serial_prefix(executor, txns, base, count) is Err,
    ensures
        serial_prefix(executor, txns, base, longer) == serial_prefix(executor, txns, base, count),
    decreases longer,
{
    if count < longer {
        lemma_failure_is_final(executor, txns, base, count, (longer - 1) as nat);
    }
}

/// A serial execution of a prefix has one result per transaction, and its
/// first results are those of the shorter prefixes.
pub proof fn lemma_prefix_results<X: ExecutorTask>(
    executor: &X,
    txns: Seq<X::Txn>,
    base: StateView,
    shorter: nat,
    count: nat,
)
    requires
        shorter <= count,
        serial_prefix(executor, txns, base, count) is Ok,
    ensures
        serial_prefix(executor, txns, base, shorter) is Ok,
        serial_prefix(executor, txns, base, count)->Ok_0.results.len() == count,
        serial_prefix(executor, txns, base, shorter)->Ok_0.results == serial_prefix(
            executor,
            txns,
            base,
            count,
        )->Ok_0.results.subrange(0, shorter as int),
    decreases count,
{
    let whole = serial_prefix(executor, txns, base, count)->Ok_0.results;
    if count == 0 {
        assert(whole.subrange(0, 0) =~= whole);
    } else {
        let before = (count - 1) as nat;
        lemma_prefix_results(executor, txns, base, before, before);
        let earlier = serial_prefix(executor, txns, base, before)->Ok_0.results;
        assert(earlier == earlier.subrange(0, before as int));
        assert(whole.subrange(0, before as int) =~= earlier);
        if shorter == count {
            assert(whole.subrange(0, count as int) =~= whole);
        } else {
            lemma_prefix_results(executor, txns, base, shorter, before);
            assert(earlier.subrange(0, shorter as int) =~= whole.subrange(0, shorter as int));
        }
    }
}

/// Skip propagation: in a serial execution, every transaction after one
/// that returned `SkipRest` has exactly the skip output.
pub proof fn lemma_skip_propagates<X: ExecutorTask>(
    executor: &X,
    txns: Seq<X::Txn>,
    base: StateView,
    count: nat,
    i: int,
    j: int,
)
    requires
        serial_prefix(executor, txns, base, count) is Ok,
        0 <= i < j < count,
        serial_prefix(executor, txns, base, count)->Ok_0.results[i] is SkipRest,
    ensures
        serial_prefix(executor, txns, base, count)->Ok_0.results[j] == ExecutionStatus::<
            OutputView,
            X::Error,
        >::Success(OutputView::skip()),
    decreases count,
{
    let before = (count - 1) as nat;
    lemma_prefix_results(executor, txns, base, before, count);
    lemma_prefix_results(executor, txns, base, before, before);
    let run = serial_prefix(executor, txns, base, before)->Ok_0;
    if j < before {
        lemma_skip_propagates(executor, txns, base, before, i, j);
    } else {
        lemma_skipping_after_skip_rest(executor, txns, base, before, i);
    }
}

/// A serial execution is skipping from the first `SkipRest` on.
pub proof fn lemma_skipping_after_skip_rest<X: ExecutorTask>(
    executor: &X,
    txns: Seq<X::Txn>,
    base: StateView,
    count: nat,
    i: int,
)
    requires
        serial_prefix(executor, txns, base, count) is Ok,
        0 <= i < count,
        serial_prefix(executor, txns, base, count)->Ok_0.results[i] is SkipRest,
    ensures
        serial_prefix(executor, txns, base, count)->Ok_0.skipping,
    decreases count,
{
    let before = (count - 1) as nat;
    lemma_prefix_results(executor, txns, base, before, count);
    lemma_prefix_results(executor, txns, base, before, before);
    if i < before {
        lemma_skipping_after_skip_rest(executor, txns, base, before, i);
    }
}

/// Category routing: the result that a serial execution records for a
/// transaction that ran is what the transaction returned over the state of
/// its predecessors, verbatim; and where that is an abort, its error is a
/// valid error.
pub proof fn lemma_recorded_results<X: ExecutorTask>(
    executor: &X,
    txns: Seq<X::Txn>,
    base: StateView,
    count: nat,
    i: int,
)
    requires
        serial_prefix(executor, txns, base, count) is Ok,
        0 <= i < count,
    ensures
        serial_prefix(executor, txns, base, i as nat) matches Ok(before) && ({
            let recorded = serial_prefix(executor, txns, base, count)->Ok_0.results[i];
            &&& before.skipping ==> recorded == ExecutionStatus::<
                OutputView,
                X::Error,
            >::Success(OutputView::skip())
            &&& !before.skipping ==> recorded == executor.outcome(
                &txns[i],
                i as TxnIndex,
                before.state,
                true,
            )
            &&& recorded matches ExecutionStatus::Abort(error) ==> error.category()
                == ErrorCategory::ValidError
        }),
{
    lemma_prefix_results(executor, txns, base, i as nat, count);
    lemma_prefix_results(executor, txns, base, (i + 1) as nat, count);
    let whole = serial_prefix(executor, txns, base, count)->Ok_0.results;
    let before = serial_prefix(executor, txns, base, i as nat)->Ok_0;
    let after = serial_prefix(executor, txns, base, (i + 1) as nat)->Ok_0;
    assert(before.results.len() == i);
    assert(after.results == whole.subrange(0, i + 1));
    assert(whole[i] == after.results[i]);
    assert(((i + 1) as nat - 1) as nat == i as nat);
}

/// No output of a serial execution holds an aggregator delta: every delta
/// was resolved to a write.
pub proof fn lemma_no_residual_deltas<X: ExecutorTask>(
    executor: &X,
    txns: Seq<X::Txn>,
    base: StateView,
    count: nat,
    i: int,
)
    requires
        serial_prefix(executor, txns, base, count) is Ok,
        0 <= i < count,
    ensures
        match serial_prefix(executor, txns, base, count)->Ok_0.results[i] {
            ExecutionStatus::Success(output) => output.aggregator_v1_deltas.len() == 0,
            ExecutionStatus::SkipRest(output) => output.aggregator_v1_deltas.len() == 0,
            ExecutionStatus::Abort(_) => true,
        },
{
    lemma_recorded_results(executor, txns, base, count, i);
    let before = serial_prefix(executor, txns, base, i as nat)->Ok_0;
    executor.lemma_materialized_deltas(&txns[i], i as TxnIndex, before.state);
}

/// Category routing: a serial execution fails only on an abort that is not
/// a valid error, and it fails with the error that the transaction
/// returned over the state of its predecessors. (The block is one whose
/// indices fit `TxnIndex`.)
pub proof fn lemma_failure_cause<X: ExecutorTask>(
    executor: &X,
    txns: Seq<X::Txn>,
    base: StateView,
    count: nat,
)
    requires
        count <= txns.len() <= TxnIndex::MAX,
        serial_prefix(executor, txns, base, count) is Err,
    ensures
        ({
            let abort = serial_prefix(executor, txns, base, count)->Err_0;
            &&& abort.txn_idx < count
            &&& abort.error.category() != ErrorCategory::ValidError
            &&& serial_prefix(executor, txns, base, abort.txn_idx as nat) matches Ok(before)
                && !before.skipping && executor.outcome(
                &txns[abort.txn_idx as int],
                abort.txn_idx,
                before.state,
                true,
            ) == ExecutionStatus::<OutputView, X::Error>::Abort(abort.error)
        }),
    decreases count,
{
    let before = (count - 1) as nat;
    if serial_prefix(executor, txns, base, before) is Err {
        lemma_failure_cause(executor, txns, base, before);
    }
}

} // verus!
