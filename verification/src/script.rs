use crate::delta::DeltaOp;
use crate::materialize::{resolve_over, resolved_delta, resolved_deltas};
use crate::output::{FeeStatement, OutputView, TxnOutput};
use crate::state::{copy_bytes, lookup, StateKey, StateView, WriteOp};
use crate::task::{CategorizeError, ErrorCategory, ExecutionStatus, ExecutorTask, TxnIndex};
use crate::view::{reads_hold, LatestView, ReadResult, ReadView};
use crate::vm_status::{
    categorize_status_code, category_of_code, SPECULATIVE_EXECUTION_ABORT_ERROR,
};
use vstd::prelude::*;

verus! {

/// The status code with which a script aborts when a delta that it has to
/// materialize does not apply.
pub const ARITHMETIC_ERROR: u64 = 4017;

/// One instruction of a script.
#[derive(Debug)]
pub enum ScriptOp {
    /// Reads `from` and writes what it found to `to`: the same bytes, or a
    /// deletion where `from` is empty.
    Copy { from: StateKey, to: StateKey },
    /// Writes to a resource.
    Put { key: StateKey, op: WriteOp },
    /// Changes the aggregator under `key` by `delta`.
    Add { key: StateKey, delta: DeltaOp },
    /// Emits an event with this payload.
    Emit(Vec<u8>),
    /// Reads `key` and needs it to be present: where it is empty, the script
    /// takes that for a write that it has not seen yet and aborts with a
    /// speculative error.
    Require { key: StateKey },
}

/// How a script ends.
#[derive(Debug, Clone, Copy, PartialEq, Eq, Structural)]
pub enum Ending {
    Success,
    SkipRest,
    /// Abort with this status code.
    Abort(u64),
}

/// A transaction that runs a fixed list of instructions.
#[derive(Debug)]
pub struct ScriptTxn {
    pub ops: Vec<ScriptOp>,
    pub fee: FeeStatement,
    pub ending: Ending,
}

/// The error of a script: a status code.
#[derive(Debug, Clone, Copy, PartialEq, Eq, Structural)]
pub struct ScriptError {
    pub code: u64,
}

impl CategorizeError for ScriptError {
    open spec fn category(&self) -> ErrorCategory {
        category_of_code(self.code)
    }

    fn categorize(&self) -> (category: ErrorCategory) {
        categorize_status_code(self.code)
    }
}

/// What a script has done so far.
pub struct ScriptTrace {
    pub reads: Seq<ReadView>,
    pub output: OutputView,
    /// Whether a delta that had to be materialized did not apply.
    pub failed: bool,
    /// Whether a key that the script requires was empty.
    pub blocked: bool,
}

/// The trace after one more instruction.
pub open spec fn after_op(
    trace: ScriptTrace,
    op: ScriptOp,
    state: StateView,
    materialize_deltas: bool,
) -> ScriptTrace {
    match op {
        ScriptOp::Copy { from, to } => ScriptTrace {
            reads: trace.reads.push((from, lookup(state, from))),
            output: OutputView {
                resource_writes: trace.output.resource_writes.push((to, lookup(state, from), None)),
                ..trace.output
            },
            ..trace
        },
        ScriptOp::Put { key, op } => ScriptTrace {
            output: OutputView {
                resource_writes: trace.output.resource_writes.push((key, op@, None)),
                ..trace.output
            },
            ..trace
        },
        ScriptOp::Add { key, delta } => if materialize_deltas {
            match resolved_delta(state, key, delta) {
                Some(write) => ScriptTrace {
                    reads: trace.reads.push((key, lookup(state, key))),
                    output: OutputView {
                        aggregator_v1_writes: trace.output.aggregator_v1_writes.push(write),
                        ..trace.output
                    },
                    ..trace
                },
                None => ScriptTrace {
                    reads: trace.reads.push((key, lookup(state, key))),
                    failed: true,
                    ..trace
                },
            }
        } else {
            ScriptTrace {
                output: OutputView {
                    aggregator_v1_deltas: trace.output.aggregator_v1_deltas.push((key, delta)),
                    ..trace.output
                },
                ..trace
            }
        },
        ScriptOp::Emit(payload) => ScriptTrace {
            output: OutputView {
                events: trace.output.events.push((payload@, None)),
                ..trace.output
            },
            ..trace
        },
        ScriptOp::Require { key } => ScriptTrace {
            reads: trace.reads.push((key, lookup(state, key))),
            blocked: trace.blocked || lookup(state, key).is_none(),
            ..trace
        },
    }
}

/// The trace of a list of instructions over `state`.
pub open spec fn trace_of(
    ops: Seq<ScriptOp>,
    fee: FeeStatement,
    state: StateView,
    materialize_deltas: bool,
) -> ScriptTrace
    decreases ops.len(),
{
    if ops.len() == 0 {
        ScriptTrace {
            reads: Seq::empty(),
            output: OutputView { fee_statement: fee, ..OutputView::skip() },
            failed: false,
            blocked: false,
        }
    } else {
        after_op(
            trace_of(ops.drop_last(), fee, state, materialize_deltas),
            ops.last(),
            state,
            materialize_deltas,
        )
    }
}

/// What a script returns over `state`: a speculative error where a key that
/// it requires is empty; else the abort that it ends with; else an
/// arithmetic error where a delta that it materializes does not apply; else
/// its output.
pub open spec fn script_outcome(
    txn: ScriptTxn,
    state: StateView,
    materialize_deltas: bool,
) -> ExecutionStatus<OutputView, ScriptError> {
    let trace = trace_of(txn.ops@, txn.fee, state, materialize_deltas);
    if trace.blocked {
        ExecutionStatus::Abort(ScriptError { code: SPECULATIVE_EXECUTION_ABORT_ERROR })
    } else {
        match txn.ending {
            Ending::Abort(code) => ExecutionStatus::Abort(ScriptError { code }),
            Ending::Success => if trace.failed {
                ExecutionStatus::Abort(ScriptError { code: ARITHMETIC_ERROR })
            } else {
                ExecutionStatus::Success(trace.output)
            },
            Ending::SkipRest => if trace.failed {
                ExecutionStatus::Abort(ScriptError { code: ARITHMETIC_ERROR })
            } else {
                ExecutionStatus::SkipRest(trace.output)
            },
        }
    }
}

/// A script depends on the state only through its reads.
pub proof fn lemma_trace_reads_decide(
    ops: Seq<ScriptOp>,
    fee: FeeStatement,
    seen: StateView,
    other: StateView,
    materialize_deltas: bool,
)
    requires
        reads_hold(trace_of(ops, fee, seen, materialize_deltas).reads, other),
    ensures
        trace_of(ops, fee, other, materialize_deltas) == trace_of(
            ops,
            fee,
            seen,
            materialize_deltas,
        ),
    decreases ops.len(),
{
    if ops.len() > 0 {
        let before = trace_of(ops.drop_last(), fee, seen, materialize_deltas);
        let whole = trace_of(ops, fee, seen, materialize_deltas);
        assert(whole == after_op(before, ops.last(), seen, materialize_deltas));
        assert(before.reads.len() <= whole.reads.len());
        assert forall|i: int| 0 <= i < before.reads.len() implies lookup(
            other,
            (#[trigger] before.reads[i]).0,
        ) == before.reads[i].1 by {
            assert(before.reads[i] == whole.reads[i]);
        }
        lemma_trace_reads_decide(ops.drop_last(), fee, seen, other, materialize_deltas);
        if whole.reads.len() > before.reads.len() {
            let read = whole.reads[before.reads.len() as int];
            assert(lookup(other, read.0) == read.1);
        }
    }
}

/// The reads of the first instructions of a script are the first reads of
/// the script.
pub proof fn lemma_reads_extend(
    ops: Seq<ScriptOp>,
    fee: FeeStatement,
    state: StateView,
    materialize_deltas: bool,
    count: int,
)
    requires
        0 <= count <= ops.len(),
    ensures
        ({
            let first = trace_of(ops.subrange(0, count), fee, state, materialize_deltas).reads;
            let all = trace_of(ops, fee, state, materialize_deltas).reads;
            &&& first.len() <= all.len()
            &&& forall|i: int| 0 <= i < first.len() ==> first[i] == all[i]
        }),
    decreases ops.len(),
{
    if count == ops.len() {
        assert(ops.subrange(0, count) =~= ops);
    } else {
        assert(ops.drop_last().subrange(0, count) =~= ops.subrange(0, count));
        lemma_reads_extend(ops.drop_last(), fee, state, materialize_deltas, count);
    }
}

/// Between the deferred and the materialized trace of one script: the
/// materialized trace has failed exactly if a deferred delta does not
/// resolve; otherwise its aggregator writes are what the deferred deltas
/// resolve to, and everything else is the same.
pub proof fn lemma_trace_deferred(ops: Seq<ScriptOp>, fee: FeeStatement, state: StateView)
    ensures
        ({
            let deferred = trace_of(ops, fee, state, false);
            let eager = trace_of(ops, fee, state, true);
            &&& !deferred.failed
            &&& eager.blocked == deferred.blocked
            &&& deferred.output.aggregator_v1_writes.len() == 0
            &&& eager.output.aggregator_v1_deltas.len() == 0
            &&& eager.output.resource_writes == deferred.output.resource_writes
            &&& eager.output.module_writes == deferred.output.module_writes
            &&& eager.output.delayed_field_changes == deferred.output.delayed_field_changes
            &&& eager.output.events == deferred.output.events
            &&& eager.output.fee_statement == deferred.output.fee_statement
            &&& eager.failed <==> resolved_deltas(
                state,
                deferred.output.aggregator_v1_deltas,
            ).is_none()
            &&& !eager.failed ==> resolved_deltas(state, deferred.output.aggregator_v1_deltas)
                == Some(eager.output.aggregator_v1_writes)
        }),
    decreases ops.len(),
{
    let deferred = trace_of(ops, fee, state, false);
    let eager = trace_of(ops, fee, state, true);
    if ops.len() == 0 {
        assert(resolved_deltas(state, deferred.output.aggregator_v1_deltas).unwrap()
            =~= eager.output.aggregator_v1_writes);
    } else {
        lemma_trace_deferred(ops.drop_last(), fee, state);
        let deferred_before = trace_of(ops.drop_last(), fee, state, false);
        let eager_before = trace_of(ops.drop_last(), fee, state, true);
        let deltas_before = deferred_before.output.aggregator_v1_deltas;
        let deltas = deferred.output.aggregator_v1_deltas;
        match ops.last() {
            ScriptOp::Add { key, delta } => {
                assert(deltas == deltas_before.push((key, delta)));
                assert forall|i: int| 0 <= i < deltas_before.len() implies deltas[i]
                    == deltas_before[i] by {}
                if eager_before.failed {
                    let bad = choose|i: int|
                        0 <= i < deltas_before.len() && !(#[trigger] resolved_delta(
                            state,
                            deltas_before[i].0,
                            deltas_before[i].1,
                        )).is_some();
                    assert(deltas[bad] == deltas_before[bad]);
                    assert(!resolved_delta(state, deltas[bad].0, deltas[bad].1).is_some());
                } else {
                    assert forall|i: int| 0 <= i < deltas_before.len() implies (
                    #[trigger] resolved_delta(state, deltas[i].0, deltas[i].1)).is_some() by {
                        assert(resolved_delta(
                            state,
                            deltas_before[i].0,
                            deltas_before[i].1,
                        ).is_some());
                    }
                    let last = deltas_before.len() as int;
                    assert(deltas[last] == (key, delta));
                    if resolved_delta(state, key, delta).is_some() {
                        assert(resolved_deltas(state, deltas).unwrap()
                            =~= eager.output.aggregator_v1_writes);
                    } else {
                        assert(!resolved_delta(state, deltas[last].0, deltas[last].1).is_some());
                    }
                }
            },
            _ => {},
        }
    }
}

/// The status with which a script gives up on a dependency.
fn gave_up() -> (status: ExecutionStatus<TxnOutput, ScriptError>)
    ensures
        status == ExecutionStatus::<TxnOutput, ScriptError>::Abort(
            ScriptError { code: SPECULATIVE_EXECUTION_ABORT_ERROR },
        ),
{
    ExecutionStatus::Abort(ScriptError { code: SPECULATIVE_EXECUTION_ABORT_ERROR })
}

/// What an executor of scripts is made from: nothing.
#[derive(Debug, Clone, Copy)]
pub struct ScriptArgument {}

/// The executor of scripts.
pub struct ScriptExecutor {}

impl ExecutorTask for ScriptExecutor {
    type Txn = ScriptTxn;

    type Output = TxnOutput;

    type Error = ScriptError;

    type Argument = ScriptArgument;

    open spec fn reads(
        &self,
        txn: &ScriptTxn,
        txn_idx: TxnIndex,
        state: StateView,
        materialize_deltas: bool,
    ) -> Seq<ReadView> {
        trace_of(txn.ops@, txn.fee, state, materialize_deltas).reads
    }

    open spec fn outcome(
        &self,
        txn: &ScriptTxn,
        txn_idx: TxnIndex,
        state: StateView,
        materialize_deltas: bool,
    ) -> ExecutionStatus<OutputView, ScriptError> {
        script_outcome(*txn, state, materialize_deltas)
    }

    proof fn lemma_reads_decide(
        &self,
        txn: &ScriptTxn,
        txn_idx: TxnIndex,
        seen: StateView,
        other: StateView,
        materialize_deltas: bool,
    ) {
        lemma_trace_reads_decide(txn.ops@, txn.fee, seen, other, materialize_deltas);
    }

    proof fn lemma_deferred_deltas(&self, txn: &ScriptTxn, txn_idx: TxnIndex, state: StateView) {
        lemma_trace_deferred(txn.ops@, txn.fee, state);
        let deferred = trace_of(txn.ops@, txn.fee, state, false);
        let eager = trace_of(txn.ops@, txn.fee, state, true);
        if !eager.failed {
            assert(deferred.output.with_delta_writes(eager.output.aggregator_v1_writes)
                =~= eager.output) by {
                assert(deferred.output.aggregator_v1_writes + eager.output.aggregator_v1_writes
                    =~= eager.output.aggregator_v1_writes);
                assert(eager.output.aggregator_v1_deltas =~= Seq::empty());
            }
        }
    }

    proof fn lemma_materialized_deltas(
        &self,
        txn: &ScriptTxn,
        txn_idx: TxnIndex,
        state: StateView,
    ) {
        lemma_trace_deferred(txn.ops@, txn.fee, state);
    }

    fn init(args: ScriptArgument) -> Self {
        ScriptExecutor {  }
    }

    fn execute_transaction(
        &self,
        view: &mut LatestView,
        txn: &ScriptTxn,
        txn_idx: TxnIndex,
        materialize_deltas: bool,
    ) -> (status: ExecutionStatus<TxnOutput, ScriptError>) {
        let ghost state = view.snapshot();
        let mut output = TxnOutput::new(txn.fee);
        let mut failed = false;
        let mut blocked = false;
        let mut i: usize = 0;
        assert(view.captured_reads() =~= Seq::empty());
        while i < txn.ops.len()
            invariant
                i <= txn.ops.len(),
                view.wf(),
                view.index() == txn_idx,
                view.snapshot() == state,
                state == old(view).snapshot(),
                view.blocked_on().is_none(),
                forall|key: StateKey| #[trigger] view.blocking(key) == old(view).blocking(key),
                !old(view).blocks_any(view.captured_reads()),
                trace_of(txn.ops@.subrange(0, i as int), txn.fee, state, materialize_deltas) == (
                ScriptTrace { reads: view.captured_reads(), output: output@, failed, blocked }),
            decreases txn.ops.len() - i,
        {
            let ghost before = ScriptTrace {
                reads: view.captured_reads(),
                output: output@,
                failed,
                blocked,
            };
            let ghost done = txn.ops@.subrange(0, i as int);
            let ghost next = txn.ops@.subrange(0, i + 1);
            assert(next.drop_last() =~= done);
            let ghost after = after_op(before, txn.ops@[i as int], state, materialize_deltas);
            match &txn.ops[i] {
                ScriptOp::Copy { from, to } => {
                    let op = match view.get(*from) {
                        ReadResult::Resolved(Some(bytes)) => WriteOp::Modification(bytes),
                        ReadResult::Resolved(None) => WriteOp::Deletion,
                        ReadResult::Dependency(_) => {
                            proof {
                                lemma_reads_extend(
                                    txn.ops@,
                                    txn.fee,
                                    state,
                                    materialize_deltas,
                                    i + 1,
                                );
                                let all = trace_of(
                                    txn.ops@,
                                    txn.fee,
                                    state,
                                    materialize_deltas,
                                ).reads;
                                let at = before.reads.len() as int;
                                assert(old(view).blocking(all[at].0).is_some());
                            }
                            return gave_up();
                        },
                    };
                    output.resource_writes.push((*to, op, None));
                    assert(output@.resource_writes =~= after.output.resource_writes);
                },
                ScriptOp::Put { key, op } => {
                    output.resource_writes.push((*key, op.duplicate(), None));
                    assert(output@.resource_writes =~= after.output.resource_writes);
                },
                ScriptOp::Add { key, delta } => {
                    if materialize_deltas {
                        let found = match view.get(*key) {
                            ReadResult::Resolved(value) => value,
                            ReadResult::Dependency(_) => {
                                proof {
                                    lemma_reads_extend(
                                        txn.ops@,
                                        txn.fee,
                                        state,
                                        materialize_deltas,
                                        i + 1,
                                    );
                                    let all = trace_of(
                                        txn.ops@,
                                        txn.fee,
                                        state,
                                        materialize_deltas,
                                    ).reads;
                                    let at = before.reads.len() as int;
                                        assert(old(view).blocking(all[at].0).is_some());
                                }
                                return gave_up();
                            },
                        };
                        match resolve_over(found.as_ref(), *key, delta) {
                            Some(write) => {
                                output.aggregator_v1_writes.push(write);
                                assert(output@.aggregator_v1_writes
                                    =~= after.output.aggregator_v1_writes);
                            },
                            None => {
                                failed = true;
                            },
                        }
                    } else {
                        output.aggregator_v1_deltas.push((*key, *delta));
                    }
                },
                ScriptOp::Emit(payload) => {
                    output.events.push((copy_bytes(payload), None));
                    assert(output@.events =~= after.output.events);
                },
                ScriptOp::Require { key } => {
                    match view.get(*key) {
                        ReadResult::Resolved(Some(_)) => {},
                        ReadResult::Resolved(None) => {
                            blocked = true;
                        },
                        ReadResult::Dependency(_) => {
                            proof {
                                lemma_reads_extend(
                                    txn.ops@,
                                    txn.fee,
                                    state,
                                    materialize_deltas,
                                    i + 1,
                                );
                                let all = trace_of(
                                    txn.ops@,
                                    txn.fee,
                                    state,
                                    materialize_deltas,
                                ).reads;
                                let at = before.reads.len() as int;
                                assert(old(view).blocking(all[at].0).is_some());
                            }
                            return gave_up();
                        },
                    }
                },
            }
            i += 1;
        }
        assert(txn.ops@.subrange(0, i as int) =~= txn.ops@);
        if blocked {
            return ExecutionStatus::Abort(ScriptError { code: SPECULATIVE_EXECUTION_ABORT_ERROR });
        }
        match txn.ending {
            Ending::Abort(code) => ExecutionStatus::Abort(ScriptError { code }),
            Ending::Success => if failed {
                ExecutionStatus::Abort(ScriptError { code: ARITHMETIC_ERROR })
            } else {
                ExecutionStatus::Success(output)
            },
            Ending::SkipRest => if failed {
                ExecutionStatus::Abort(ScriptError { code: ARITHMETIC_ERROR })
            } else {
                ExecutionStatus::SkipRest(output)
            },
        }
    }
}

} // verus!
