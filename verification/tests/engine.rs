use block_executor::delta::{DeltaOp, SignedU128};
use block_executor::executor::{
    execute_block, execute_block_sequential, BlockExecutor, BlockOutput, Step, TxnStatus,
};
use block_executor::output::{FeeStatement, TxnOutput};
use block_executor::script::{
    Ending, ScriptArgument, ScriptError, ScriptExecutor, ScriptOp, ScriptTxn, ARITHMETIC_ERROR,
};
use block_executor::serial::BlockAbort;
use block_executor::state::{State, WriteOp};
use block_executor::task::{ExecutionStatus, ExecutorTask, TransactionOutput};
use block_executor::view::LatestView;

type Outcome = Result<BlockOutput<TxnOutput, ScriptError>, BlockAbort<ScriptError>>;

const COUNTER: u64 = 100;

fn executor() -> ScriptExecutor {
    ScriptExecutor::init(ScriptArgument {})
}

fn gas(units: u64) -> FeeStatement {
    FeeStatement {
        total_charge_gas_units: units,
        execution_gas_units: units,
        io_gas_units: 0,
        storage_fee_octas: 0,
        storage_fee_refund_octas: 0,
    }
}

fn txn(ops: Vec<ScriptOp>) -> ScriptTxn {
    ScriptTxn { ops, fee: gas(1), ending: Ending::Success }
}

fn ending(ops: Vec<ScriptOp>, ending: Ending) -> ScriptTxn {
    ScriptTxn { ops, fee: gas(1), ending }
}

fn put(key: u64, bytes: Vec<u8>) -> ScriptOp {
    ScriptOp::Put { key, op: WriteOp::Modification(bytes) }
}

fn copy(from: u64, to: u64) -> ScriptOp {
    ScriptOp::Copy { from, to }
}

fn add(key: u64, value: u128) -> ScriptOp {
    ScriptOp::Add { key, delta: DeltaOp::new(SignedU128::Positive(value), 100) }
}

fn sub(key: u64, value: u128) -> ScriptOp {
    ScriptOp::Add { key, delta: DeltaOp::new(SignedU128::Negative(value), 100) }
}

fn number(value: u128) -> Vec<u8> {
    value.to_le_bytes().to_vec()
}

fn base() -> State {
    let mut state = State::new();
    state.set(1, vec![1]);
    state.set(COUNTER, number(10));
    state
}

fn sample_block() -> Vec<ScriptTxn> {
    vec![
        txn(vec![put(1, vec![7]), ScriptOp::Emit(vec![0xe0])]),
        txn(vec![copy(1, 2)]),
        txn(vec![add(COUNTER, 5)]),
        txn(vec![sub(COUNTER, 3), copy(2, 4)]),
        txn(vec![copy(COUNTER, 3), ScriptOp::Put { key: 1, op: WriteOp::Deletion }]),
    ]
}

fn run(txns: &Vec<ScriptTxn>, schedule: Vec<Step>) -> Outcome {
    execute_block(&executor(), txns, base(), &schedule)
}

fn results_text(outcome: &Outcome) -> String {
    match outcome {
        Ok(output) => format!("{:?}", output.results),
        Err(abort) => format!("{:?}", abort),
    }
}

fn state_text(outcome: &Outcome, keys: &[u64]) -> String {
    match outcome {
        Ok(output) => {
            let found: Vec<_> = keys.iter().map(|k| output.state.get(*k)).collect();
            format!("{:?}", found)
        },
        Err(_) => String::new(),
    }
}

fn assert_same(left: &Outcome, right: &Outcome) {
    assert_eq!(results_text(left), results_text(right));
    let keys = [1, 2, 3, 4, 5, COUNTER];
    assert_eq!(state_text(left, &keys), state_text(right, &keys));
}

fn output_of(status: &ExecutionStatus<TxnOutput, ScriptError>) -> &TxnOutput {
    match status {
        ExecutionStatus::Success(output) => output,
        ExecutionStatus::SkipRest(output) => output,
        ExecutionStatus::Abort(error) => panic!("aborted with {:?}", error),
    }
}

fn is_arithmetic_error(status: &ExecutionStatus<TxnOutput, ScriptError>) -> bool {
    matches!(status, ExecutionStatus::Abort(ScriptError { code }) if *code == ARITHMETIC_ERROR)
}

fn is_skip_output(output: &TxnOutput) -> bool {
    output.resource_write_set().is_empty()
        && output.module_write_set().is_empty()
        && output.aggregator_v1_write_set().is_empty()
        && output.aggregator_v1_delta_set().is_empty()
        && output.delayed_field_change_set().is_empty()
        && output.get_events().is_empty()
        && output.fee_statement() == FeeStatement::zero()
}

fn schedules(len: u32) -> Vec<Vec<Step>> {
    let forward: Vec<Step> = (0..len).map(Step::Execute).collect();
    let backward: Vec<Step> = (0..len).rev().map(Step::Execute).collect();
    let mut mixed = Vec::new();
    for i in (0..len).rev() {
        mixed.push(Step::Execute(i));
        mixed.push(Step::Validate(i));
    }
    for i in 0..len {
        mixed.push(Step::Validate(i));
        mixed.push(Step::Commit);
        mixed.push(Step::Execute(len - 1 - i));
    }
    let mut eager_commits = Vec::new();
    for i in 0..len {
        eager_commits.push(Step::Execute(len - 1));
        eager_commits.push(Step::Commit);
        eager_commits.push(Step::Abort(i));
    }
    let out_of_range = vec![
        Step::Execute(len),
        Step::Validate(len + 7),
        Step::Abort(u32::MAX),
        Step::Execute(0),
        Step::Commit,
        Step::Execute(0),
        Step::Validate(0),
        Step::Abort(0),
    ];
    vec![Vec::new(), forward, backward, mixed, eager_commits, out_of_range]
}

#[test]
fn sequential_execution_gives_the_expected_outputs() {
    let outcome = execute_block_sequential(&executor(), &sample_block(), base());
    let output = outcome.unwrap();
    assert_eq!(output.results.len(), 5);

    let first = output_of(&output.results[0]);
    assert_eq!(first.module_write_set(), Vec::new());
    assert_eq!(first.resource_write_set().len(), 1);
    assert_eq!(first.resource_write_set()[0].1, WriteOp::Modification(vec![7]));
    assert_eq!(first.get_events().len(), 1);
    assert_eq!(first.get_events()[0].0, vec![0xe0]);
    assert_eq!(first.fee_statement(), gas(1));

    let second = output_of(&output.results[1]);
    assert_eq!(second.resource_write_set()[0].0, 2);
    assert_eq!(second.resource_write_set()[0].1, WriteOp::Modification(vec![7]));

    let third = output_of(&output.results[2]);
    assert!(third.aggregator_v1_delta_set().is_empty());
    assert_eq!(
        third.aggregator_v1_write_set(),
        vec![(COUNTER, WriteOp::Modification(number(15)))]
    );

    let fourth = output_of(&output.results[3]);
    assert!(fourth.aggregator_v1_delta_set().is_empty());
    assert_eq!(
        fourth.aggregator_v1_write_set(),
        vec![(COUNTER, WriteOp::Modification(number(12)))]
    );
    assert_eq!(fourth.resource_write_set()[0].1, WriteOp::Modification(vec![7]));

    let fifth = output_of(&output.results[4]);
    assert_eq!(fifth.resource_write_set()[0].0, 3);
    assert_eq!(fifth.resource_write_set()[0].1, WriteOp::Modification(number(12)));
    assert_eq!(fifth.resource_write_set()[1].1, WriteOp::Deletion);

    assert_eq!(output.state.get(1), None);
    assert_eq!(output.state.get(2), Some(&vec![7]));
    assert_eq!(output.state.get(3), Some(&number(12)));
    assert_eq!(output.state.get(4), Some(&vec![7]));
    assert_eq!(output.state.get(COUNTER), Some(&number(12)));
}

#[test]
fn every_schedule_gives_the_serial_result() {
    let txns = sample_block();
    let serial = execute_block_sequential(&executor(), &txns, base());
    for schedule in schedules(txns.len() as u32) {
        let outcome = run(&txns, schedule);
        assert_same(&outcome, &serial);
    }
}

#[test]
fn a_block_without_transactions_leaves_the_state() {
    let txns = Vec::new();
    let outcome = run(&txns, vec![Step::Commit, Step::Execute(0)]).unwrap();
    assert!(outcome.results.is_empty());
    assert_eq!(outcome.state.get(1), Some(&vec![1]));
    assert_eq!(outcome.state.get(COUNTER), Some(&number(10)));
    let serial = execute_block_sequential(&executor(), &txns, base()).unwrap();
    assert!(serial.results.is_empty());
}

#[test]
fn a_stale_speculative_result_is_not_committed() {
    // The second transaction is executed before the first has written key 1.
    let txns = vec![txn(vec![put(1, vec![7])]), txn(vec![copy(1, 2)])];
    let outcome = run(&txns, vec![Step::Execute(1), Step::Execute(0)]).unwrap();
    assert_eq!(
        output_of(&outcome.results[1]).resource_write_set()[0].1,
        WriteOp::Modification(vec![7])
    );
    assert_eq!(outcome.state.get(2), Some(&vec![7]));
}

#[test]
fn skip_rest_gives_every_later_transaction_the_skip_output() {
    let txns = vec![
        txn(vec![put(1, vec![7])]),
        ending(vec![put(2, vec![8])], Ending::SkipRest),
        txn(vec![put(3, vec![9])]),
        txn(vec![put(4, vec![10]), add(COUNTER, 1)]),
    ];
    let serial = execute_block_sequential(&executor(), &txns, base());
    for schedule in schedules(4) {
        let outcome = run(&txns, schedule);
        assert_same(&outcome, &serial);
        let output = outcome.unwrap();
        assert!(matches!(output.results[0], ExecutionStatus::Success(_)));
        assert!(matches!(output.results[1], ExecutionStatus::SkipRest(_)));
        assert_eq!(output_of(&output.results[1]).fee_statement(), gas(1));
        assert_eq!(
            output_of(&output.results[1]).resource_write_set()[0].1,
            WriteOp::Modification(vec![8])
        );
        assert!(matches!(output.results[2], ExecutionStatus::Success(_)));
        assert!(matches!(output.results[3], ExecutionStatus::Success(_)));
        assert!(is_skip_output(output_of(&output.results[2])));
        assert!(is_skip_output(output_of(&output.results[3])));
        assert_eq!(
            format!("{:?}", output_of(&output.results[2])),
            format!("{:?}", TxnOutput::skip_output())
        );
        assert_eq!(output.state.get(1), Some(&vec![7]));
        assert_eq!(output.state.get(2), Some(&vec![8]));
        assert_eq!(output.state.get(3), None);
        assert_eq!(output.state.get(4), None);
        assert_eq!(output.state.get(COUNTER), Some(&number(10)));
    }
}

#[test]
fn a_speculative_skip_rest_that_is_stale_skips_nothing() {
    // Over the base state the second transaction is blocked; it is never a
    // `SkipRest` there, and after the first it is a plain success.
    let txns = vec![
        txn(vec![put(5, vec![5])]),
        txn(vec![ScriptOp::Require { key: 5 }, put(2, vec![8])]),
        txn(vec![put(3, vec![9])]),
    ];
    let outcome = run(&txns, vec![Step::Execute(2), Step::Execute(1), Step::Execute(0)]).unwrap();
    assert_eq!(outcome.state.get(2), Some(&vec![8]));
    assert_eq!(outcome.state.get(3), Some(&vec![9]));
}

#[test]
fn deltas_resolve_in_index_order_however_they_were_executed() {
    let txns = vec![txn(vec![add(COUNTER, 5)]), txn(vec![sub(COUNTER, 3)])];
    let one_way = run(&txns, vec![Step::Execute(0), Step::Execute(1)]);
    let other_way = run(&txns, vec![Step::Execute(1), Step::Execute(0)]);
    let serial = execute_block_sequential(&executor(), &txns, base());
    assert_same(&one_way, &serial);
    assert_same(&other_way, &serial);
    let output = one_way.unwrap();
    assert_eq!(
        output_of(&output.results[0]).aggregator_v1_write_set(),
        vec![(COUNTER, WriteOp::Modification(number(15)))]
    );
    assert_eq!(
        output_of(&output.results[1]).aggregator_v1_write_set(),
        vec![(COUNTER, WriteOp::Modification(number(12)))]
    );
    assert!(output_of(&output.results[0]).aggregator_v1_delta_set().is_empty());
    assert!(output_of(&output.results[1]).aggregator_v1_delta_set().is_empty());
    assert_eq!(output.state.get(COUNTER), Some(&number(12)));
}

#[test]
fn a_delta_that_does_not_apply_is_an_arithmetic_error_of_its_transaction() {
    let txns = vec![
        txn(vec![sub(COUNTER, 11), put(2, vec![2])]),
        txn(vec![add(COUNTER, 90)]),
        txn(vec![add(COUNTER, 1)]),
        txn(vec![add(7, 1)]),
    ];
    let serial = execute_block_sequential(&executor(), &txns, base());
    for schedule in schedules(4) {
        let outcome = run(&txns, schedule);
        assert_same(&outcome, &serial);
        let output = outcome.unwrap();
        assert!(is_arithmetic_error(&output.results[0]));
        assert!(matches!(output.results[1], ExecutionStatus::Success(_)));
        assert!(is_arithmetic_error(&output.results[2]));
        assert!(is_arithmetic_error(&output.results[3]));
        assert_eq!(output.state.get(2), None);
        assert_eq!(output.state.get(COUNTER), Some(&number(100)));
    }
}

#[test]
fn forced_validation_failures_change_nothing() {
    let txns = sample_block();
    let serial = execute_block_sequential(&executor(), &txns, base());
    for target in 0..5u32 {
        for failures in [0usize, 1, 2, 5] {
            let mut schedule = Vec::new();
            for _ in 0..failures {
                schedule.push(Step::Execute(target));
                schedule.push(Step::Abort(target));
            }
            schedule.push(Step::Execute(target));
            let outcome = run(&txns, schedule);
            assert_same(&outcome, &serial);
        }
    }
}

#[test]
fn forced_validation_failures_do_not_change_a_visible_error() {
    let txns = vec![
        txn(vec![put(1, vec![7])]),
        ending(vec![copy(1, 2)], Ending::Abort(4017)),
        ending(vec![], Ending::Abort(2023)),
    ];
    let serial = execute_block_sequential(&executor(), &txns, base());
    assert_eq!(
        results_text(&serial),
        "BlockAbort { txn_idx: 2, error: ScriptError { code: 2023 } }"
    );
    for failures in [0usize, 1, 3] {
        let mut schedule = Vec::new();
        for _ in 0..failures {
            schedule.push(Step::Execute(2));
            schedule.push(Step::Execute(1));
            schedule.push(Step::Abort(1));
            schedule.push(Step::Abort(2));
        }
        let outcome = run(&txns, schedule);
        assert_same(&outcome, &serial);
    }
}

#[test]
fn a_code_invariant_error_fails_the_block() {
    let txns = vec![
        txn(vec![put(1, vec![7])]),
        ending(vec![put(2, vec![8])], Ending::Abort(2023)),
        txn(vec![put(3, vec![9])]),
    ];
    for schedule in schedules(3) {
        match run(&txns, schedule) {
            Err(abort) => {
                assert_eq!(abort.txn_idx, 1);
                assert_eq!(abort.error, ScriptError { code: 2023 });
            },
            Ok(_) => panic!("the block must fail"),
        }
    }
    assert!(execute_block_sequential(&executor(), &txns, base()).is_err());
}

#[test]
fn a_valid_error_is_the_result_of_its_transaction() {
    let txns = vec![
        txn(vec![put(1, vec![7])]),
        ending(vec![put(2, vec![8])], Ending::Abort(4001)),
        txn(vec![copy(2, 3), put(4, vec![4])]),
    ];
    for schedule in schedules(3) {
        let output = run(&txns, schedule).unwrap();
        assert!(matches!(
            output.results[1],
            ExecutionStatus::Abort(ScriptError { code: 4001 })
        ));
        assert!(matches!(output.results[2], ExecutionStatus::Success(_)));
        // The aborted transaction wrote nothing.
        assert_eq!(output.state.get(2), None);
        assert_eq!(output.state.get(3), None);
        assert_eq!(output.state.get(4), Some(&vec![4]));
    }
}

#[test]
fn a_speculative_error_is_retried_and_never_recorded() {
    // Executed before the first transaction, the second does not find key 5
    // and aborts with a speculative error. In its place it succeeds.
    let txns = vec![
        txn(vec![put(5, vec![5])]),
        txn(vec![ScriptOp::Require { key: 5 }, copy(5, 6)]),
    ];
    let serial = execute_block_sequential(&executor(), &txns, base());
    for schedule in schedules(2) {
        let outcome = run(&txns, schedule);
        assert_same(&outcome, &serial);
        let output = outcome.unwrap();
        assert!(matches!(output.results[1], ExecutionStatus::Success(_)));
        assert_eq!(output.state.get(6), Some(&vec![5]));
    }
}

#[test]
fn a_speculative_error_over_the_committed_state_fails_the_block() {
    let txns = vec![txn(vec![put(1, vec![7])]), ending(vec![], Ending::Abort(2024))];
    for schedule in schedules(2) {
        match run(&txns, schedule) {
            Err(abort) => {
                assert_eq!(abort.txn_idx, 1);
                assert_eq!(abort.error, ScriptError { code: 2024 });
            },
            Ok(_) => panic!("a speculative error must not be recorded"),
        }
    }
}

#[test]
fn the_engine_reports_where_each_transaction_stands() {
    let txns = vec![
        txn(vec![put(5, vec![5])]),
        txn(vec![ScriptOp::Require { key: 5 }]),
        ending(vec![copy(5, 6)], Ending::SkipRest),
        txn(vec![put(7, vec![7])]),
    ];
    let exec = executor();
    let mut engine = BlockExecutor::new(&exec, &txns, base());
    assert_eq!(engine.committed_len(), 0);
    assert!(!engine.has_failed());
    for i in 0..4 {
        assert_eq!(engine.status(i), TxnStatus::Pending);
    }
    assert_eq!(engine.status(4), TxnStatus::Pending);

    // Blocked: nothing is put on record.
    engine.execute(1);
    assert_eq!(engine.status(1), TxnStatus::Pending);

    engine.execute(2);
    assert_eq!(engine.status(2), TxnStatus::Executed);
    assert!(engine.validate(2));
    assert_eq!(engine.status(2), TxnStatus::Executed);
    assert!(!engine.validate(3));
    assert_eq!(engine.status(3), TxnStatus::Pending);

    // The first transaction writes what the third has read.
    engine.execute(0);
    assert_eq!(engine.status(0), TxnStatus::Executed);
    assert!(!engine.validate(2));
    assert_eq!(engine.status(2), TxnStatus::Pending);

    engine.execute(3);
    assert_eq!(engine.status(3), TxnStatus::Executed);
    engine.abort(3);
    assert_eq!(engine.status(3), TxnStatus::Pending);

    assert!(engine.committed_result(0).is_none());
    engine.commit_next();
    assert_eq!(engine.committed_len(), 1);
    assert_eq!(engine.status(0), TxnStatus::Committed);
    assert!(matches!(engine.committed_result(0), Some(ExecutionStatus::Success(_))));
    assert_eq!(
        output_of(engine.committed_result(0).unwrap()).resource_write_set()[0].1,
        WriteOp::Modification(vec![5])
    );
    assert!(engine.committed_result(1).is_none());
    assert!(engine.committed_result(u32::MAX).is_none());
    engine.step(Step::Commit);
    assert_eq!(engine.committed_len(), 2);
    assert_eq!(engine.status(1), TxnStatus::Committed);

    // The `SkipRest` of the third makes the fourth final at once.
    engine.commit_next_sequential();
    assert_eq!(engine.committed_len(), 4);
    assert_eq!(engine.status(2), TxnStatus::Committed);
    assert_eq!(engine.status(3), TxnStatus::SkippedDueToHalt);
    engine.step(Step::Execute(3));
    engine.step(Step::Commit);
    assert_eq!(engine.committed_len(), 4);

    let output = engine.finish().unwrap();
    assert_eq!(output.results.len(), 4);
    assert!(is_skip_output(output_of(&output.results[3])));
    assert_eq!(output.state.get(6), Some(&vec![5]));
    assert_eq!(output.state.get(7), None);
}

#[test]
fn a_failed_block_takes_no_further_step() {
    let txns = vec![ending(vec![], Ending::Abort(2023)), txn(vec![put(1, vec![7])])];
    let exec = executor();
    let mut engine = BlockExecutor::new(&exec, &txns, base());
    engine.execute(1);
    engine.commit_next();
    assert!(engine.has_failed());
    assert_eq!(engine.committed_len(), 0);
    engine.step(Step::Commit);
    engine.step(Step::Execute(1));
    engine.step(Step::Abort(1));
    assert_eq!(engine.next_task(), None);
    engine.drain();
    assert!(engine.has_failed());
    assert_eq!(engine.committed_len(), 0);
    assert_eq!(engine.status(1), TxnStatus::Executed);
    assert!(engine.committed_result(0).is_none());
    assert!(engine.finish().is_err());
}

#[test]
fn a_script_defers_its_deltas_unless_told_to_materialize() {
    let committed = base();
    let versions = vec![Vec::new()];
    let estimates = vec![false];
    let script = txn(vec![add(COUNTER, 5), copy(1, 2)]);

    let mut view = LatestView::new(&committed, &versions, &estimates, 0, 0);
    let deferred = executor().execute_transaction(&mut view, &script, 0, false);
    assert_eq!(view.into_reads(), vec![(1, Some(vec![1]))]);
    let output = output_of(&deferred);
    assert_eq!(output.aggregator_v1_delta_set().len(), 1);
    assert!(output.aggregator_v1_write_set().is_empty());

    let mut view = LatestView::new(&committed, &versions, &estimates, 0, 0);
    let eager = executor().execute_transaction(&mut view, &script, 0, true);
    assert_eq!(view.into_reads(), vec![(COUNTER, Some(number(10))), (1, Some(vec![1]))]);
    let output = output_of(&eager);
    assert!(output.aggregator_v1_delta_set().is_empty());
    assert_eq!(
        output.aggregator_v1_write_set(),
        vec![(COUNTER, WriteOp::Modification(number(15)))]
    );
}

#[test]
fn a_script_gives_up_on_a_dependency() {
    let committed = base();
    let versions = vec![vec![(1, WriteOp::Modification(vec![7]))], Vec::new()];
    let estimates = vec![true, false];
    for script in [
        txn(vec![put(9, vec![9]), copy(1, 2)]),
        txn(vec![ScriptOp::Require { key: 1 }]),
        ending(vec![copy(1, 2)], Ending::Abort(4001)),
    ] {
        let mut view = LatestView::new(&committed, &versions, &estimates, 0, 1);
        let status = executor().execute_transaction(&mut view, &script, 1, false);
        assert!(matches!(status, ExecutionStatus::Abort(ScriptError { code: 2024 })));
        assert_eq!(view.dependency(), Some(0));
    }
    // Deferred, a delta reads nothing; materialized, it reads its key.
    let versions = vec![vec![(COUNTER, WriteOp::Modification(number(1)))], Vec::new()];
    let script = txn(vec![add(COUNTER, 5)]);
    let mut view = LatestView::new(&committed, &versions, &estimates, 0, 1);
    let status = executor().execute_transaction(&mut view, &script, 1, false);
    assert!(matches!(status, ExecutionStatus::Success(_)));
    let mut view = LatestView::new(&committed, &versions, &estimates, 0, 1);
    let status = executor().execute_transaction(&mut view, &script, 1, true);
    assert!(matches!(status, ExecutionStatus::Abort(ScriptError { code: 2024 })));
}

#[test]
fn a_discarded_execution_blocks_its_readers_until_it_is_repeated() {
    let txns = vec![txn(vec![put(1, vec![7])]), txn(vec![copy(1, 2)]), txn(vec![copy(3, 4)])];
    let exec = executor();
    let mut engine = BlockExecutor::new(&exec, &txns, base());
    engine.execute(0);
    engine.execute(1);
    assert_eq!(engine.status(1), TxnStatus::Executed);
    assert!(engine.validate(1));

    // What transaction 0 wrote becomes an estimate.
    engine.abort(0);
    assert_eq!(engine.status(0), TxnStatus::Pending);
    assert!(!engine.validate(1));
    assert_eq!(engine.status(1), TxnStatus::Pending);
    engine.execute(1);
    assert_eq!(engine.status(1), TxnStatus::Pending);
    // A reader of other keys is not held up.
    engine.execute(2);
    assert_eq!(engine.status(2), TxnStatus::Executed);

    engine.execute(0);
    engine.execute(1);
    assert_eq!(engine.status(1), TxnStatus::Executed);
    engine.drain();
    let output = engine.finish().unwrap();
    assert_eq!(output.state.get(2), Some(&vec![7]));
    assert_eq!(output.state.get(4), None);
}

#[test]
fn tasks_are_handed_out_in_index_order_and_then_commits() {
    let txns = sample_block();
    let exec = executor();
    let mut engine = BlockExecutor::new(&exec, &txns, base());
    // First every transaction is handed out for an execution.
    for i in 0..5 {
        assert_eq!(engine.status(i), TxnStatus::Pending);
        assert_eq!(engine.next_task(), Some(Step::Execute(i)));
        assert_eq!(engine.status(i), TxnStatus::Executing);
    }
    for i in [0, 1, 3] {
        engine.step(Step::Execute(i));
        assert_eq!(engine.status(i), TxnStatus::Executed);
    }
    assert_eq!(engine.status(2), TxnStatus::Executing);
    // Then once more: for a validation where an execution is on record, for
    // an execution where none is.
    assert_eq!(engine.next_task(), Some(Step::Validate(0)));
    assert_eq!(engine.status(0), TxnStatus::Validating);
    assert_eq!(engine.next_task(), Some(Step::Validate(1)));
    assert_eq!(engine.next_task(), Some(Step::Execute(2)));
    assert_eq!(engine.next_task(), Some(Step::Validate(3)));
    assert_eq!(engine.next_task(), Some(Step::Execute(4)));
    assert_eq!(engine.status(3), TxnStatus::Validating);
    assert_eq!(engine.status(4), TxnStatus::Executing);
    engine.step(Step::Validate(0));
    assert_eq!(engine.status(0), TxnStatus::Executed);
    engine.step(Step::Abort(3));
    assert_eq!(engine.status(3), TxnStatus::Pending);
    // After that the move is to commit.
    assert_eq!(engine.next_task(), Some(Step::Commit));
    assert_eq!(engine.next_task(), Some(Step::Commit));
    for _ in 0..5 {
        engine.step(Step::Commit);
    }
    assert_eq!(engine.next_task(), None);
    assert_eq!(engine.committed_len(), 5);
    for i in 0..5 {
        assert_eq!(engine.status(i), TxnStatus::Committed);
    }

    // A transaction that became final before its turn is passed over.
    let mut engine = BlockExecutor::new(&exec, &txns, base());
    assert_eq!(engine.next_task(), Some(Step::Execute(0)));
    engine.commit_next();
    engine.commit_next();
    engine.commit_next();
    assert_eq!(engine.status(0), TxnStatus::Committed);
    assert_eq!(engine.next_task(), Some(Step::Execute(3)));
    assert_eq!(engine.next_task(), Some(Step::Execute(4)));
    assert_eq!(engine.next_task(), Some(Step::Execute(3)));
    engine.step(Step::Execute(4));
    assert_eq!(engine.next_task(), Some(Step::Validate(4)));
    assert_eq!(engine.next_task(), Some(Step::Commit));
}

#[test]
fn draining_the_tasks_gives_the_serial_result() {
    for txns in [
        sample_block(),
        vec![
            txn(vec![put(5, vec![5])]),
            txn(vec![ScriptOp::Require { key: 5 }, copy(5, 6)]),
            ending(vec![add(COUNTER, 1)], Ending::SkipRest),
            txn(vec![put(7, vec![7])]),
        ],
        vec![txn(vec![put(1, vec![7])]), ending(vec![], Ending::Abort(2023))],
        Vec::new(),
    ] {
        let exec = executor();
        let mut engine = BlockExecutor::new(&exec, &txns, base());
        engine.drain();
        assert_eq!(engine.next_task(), None);
        let outcome = engine.finish();
        let serial = execute_block_sequential(&exec, &txns, base());
        assert_same(&outcome, &serial);
    }
}
