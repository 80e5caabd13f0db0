use block_executor::delta::{DeltaOp, SignedU128};
use block_executor::executor::state_writes_of;
use block_executor::output::{
    copy_events, copy_items, copy_resource_writes, copy_writes, DelayedChange, FeeStatement,
    TxnOutput,
};
use block_executor::state::WriteOp;
use block_executor::task::TransactionOutput;
use move_core_types::value::MoveTypeLayout;
use std::sync::Arc;

fn fee() -> FeeStatement {
    FeeStatement {
        total_charge_gas_units: 7,
        execution_gas_units: 4,
        io_gas_units: 2,
        storage_fee_octas: 1,
        storage_fee_refund_octas: 0,
    }
}

fn sample() -> TxnOutput {
    let mut output = TxnOutput::new(fee());
    let layout = Some(Arc::new(MoveTypeLayout::U64));
    output.resource_writes.push((1, WriteOp::Modification(vec![1]), layout));
    output.resource_writes.push((2, WriteOp::Deletion, None));
    output.module_writes.push((3, WriteOp::Modification(vec![3, 3])));
    output.aggregator_v1_writes.push((4, WriteOp::Modification(9u128.to_le_bytes().to_vec())));
    output.aggregator_v1_deltas.push((5, DeltaOp::new(SignedU128::Positive(5), 100)));
    output.aggregator_v1_deltas.push((6, DeltaOp::new(SignedU128::Negative(3), 100)));
    output.delayed_field_changes.push((7, DelayedChange::Create(1)));
    output
        .delayed_field_changes
        .push((8, DelayedChange::Apply(DeltaOp::new(SignedU128::Positive(2), 10))));
    output.events.push((vec![0xe1], Some(MoveTypeLayout::Bool)));
    output.events.push((vec![0xe2], None));
    output
}

fn plain(writes: &Vec<(u64, WriteOp, Option<Arc<MoveTypeLayout>>)>) -> Vec<(u64, WriteOp)> {
    writes.iter().map(|w| (w.0, w.1.duplicate())).collect()
}

fn payloads(events: &Vec<(Vec<u8>, Option<MoveTypeLayout>)>) -> Vec<Vec<u8>> {
    events.iter().map(|e| e.0.clone()).collect()
}

#[test]
fn zero_fee_statement_has_only_zeros() {
    let zero = FeeStatement::zero();
    assert_eq!(zero.total_charge_gas_units, 0);
    assert_eq!(zero.execution_gas_units, 0);
    assert_eq!(zero.io_gas_units, 0);
    assert_eq!(zero.storage_fee_octas, 0);
    assert_eq!(zero.storage_fee_refund_octas, 0);
}

#[test]
fn a_new_output_has_no_effects() {
    let output = TxnOutput::new(fee());
    assert!(output.resource_write_set().is_empty());
    assert!(output.module_write_set().is_empty());
    assert!(output.aggregator_v1_write_set().is_empty());
    assert!(output.aggregator_v1_delta_set().is_empty());
    assert!(output.delayed_field_change_set().is_empty());
    assert!(output.get_events().is_empty());
    assert_eq!(output.fee_statement(), fee());
}

#[test]
fn skip_output_is_empty_with_a_zero_fee_statement() {
    let output = TxnOutput::skip_output();
    assert!(output.resource_write_set().is_empty());
    assert!(output.module_write_set().is_empty());
    assert!(output.aggregator_v1_write_set().is_empty());
    assert!(output.aggregator_v1_delta_set().is_empty());
    assert!(output.delayed_field_change_set().is_empty());
    assert!(output.get_events().is_empty());
    assert_eq!(output.fee_statement(), FeeStatement::zero());
    assert!(state_writes_of(&output).is_empty());
}

#[test]
fn accessors_give_what_the_output_holds() {
    let output = sample();
    let resources = output.resource_write_set();
    assert_eq!(
        plain(&resources),
        vec![(1, WriteOp::Modification(vec![1])), (2, WriteOp::Deletion)]
    );
    assert!(matches!(resources[0].2.as_deref(), Some(MoveTypeLayout::U64)));
    assert!(resources[1].2.is_none());
    assert_eq!(output.module_write_set(), vec![(3, WriteOp::Modification(vec![3, 3]))]);
    assert_eq!(
        output.aggregator_v1_write_set(),
        vec![(4, WriteOp::Modification(9u128.to_le_bytes().to_vec()))]
    );
    assert_eq!(
        output.aggregator_v1_delta_set(),
        vec![
            (5, DeltaOp::new(SignedU128::Positive(5), 100)),
            (6, DeltaOp::new(SignedU128::Negative(3), 100)),
        ]
    );
    assert_eq!(
        output.delayed_field_change_set(),
        vec![
            (7, DelayedChange::Create(1)),
            (8, DelayedChange::Apply(DeltaOp::new(SignedU128::Positive(2), 10))),
        ]
    );
    let events = output.get_events();
    assert_eq!(payloads(&events), vec![vec![0xe1], vec![0xe2]]);
    assert!(matches!(events[0].1, Some(MoveTypeLayout::Bool)));
    assert!(events[1].1.is_none());
    assert_eq!(output.fee_statement(), fee());
}

#[test]
fn accessors_are_idempotent() {
    let output = sample();
    for _ in 0..3 {
        assert_eq!(plain(&output.resource_write_set()), plain(&output.resource_write_set()));
        assert_eq!(output.module_write_set(), output.module_write_set());
        assert_eq!(output.aggregator_v1_write_set(), output.aggregator_v1_write_set());
        assert_eq!(output.aggregator_v1_delta_set(), output.aggregator_v1_delta_set());
        assert_eq!(output.delayed_field_change_set(), output.delayed_field_change_set());
        assert_eq!(payloads(&output.get_events()), payloads(&output.get_events()));
        assert_eq!(output.fee_statement(), output.fee_statement());
    }
    assert_eq!(format!("{:?}", output), format!("{:?}", sample()));
}

#[test]
fn the_layout_of_a_shared_write_is_the_same_allocation() {
    let layout = Arc::new(MoveTypeLayout::Vector(Box::new(MoveTypeLayout::U8)));
    let mut output = TxnOutput::new(fee());
    output.resource_writes.push((1, WriteOp::Modification(vec![1]), Some(layout.clone())));
    let resources = output.resource_write_set();
    assert!(Arc::ptr_eq(resources[0].2.as_ref().unwrap(), &layout));
}

#[test]
fn state_writes_come_in_the_order_of_their_kinds() {
    let output = sample();
    assert_eq!(
        state_writes_of(&output),
        vec![
            (1, WriteOp::Modification(vec![1])),
            (2, WriteOp::Deletion),
            (3, WriteOp::Modification(vec![3, 3])),
            (4, WriteOp::Modification(9u128.to_le_bytes().to_vec())),
        ]
    );
}

#[test]
fn incorporated_delta_writes_replace_the_deltas() {
    let mut output = sample();
    output.incorporate_delta_writes(vec![
        (5, WriteOp::Modification(15u128.to_le_bytes().to_vec())),
        (6, WriteOp::Modification(7u128.to_le_bytes().to_vec())),
    ]);
    assert!(output.aggregator_v1_delta_set().is_empty());
    assert_eq!(
        output.aggregator_v1_write_set(),
        vec![
            (4, WriteOp::Modification(9u128.to_le_bytes().to_vec())),
            (5, WriteOp::Modification(15u128.to_le_bytes().to_vec())),
            (6, WriteOp::Modification(7u128.to_le_bytes().to_vec())),
        ]
    );
    // Everything else is as it was.
    let before = sample();
    assert_eq!(plain(&output.resource_write_set()), plain(&before.resource_write_set()));
    assert_eq!(output.module_write_set(), before.module_write_set());
    assert_eq!(output.delayed_field_change_set(), before.delayed_field_change_set());
    assert_eq!(payloads(&output.get_events()), payloads(&before.get_events()));
    assert_eq!(output.fee_statement(), before.fee_statement());
}

#[test]
fn incorporated_materialized_output_has_no_deferred_change_left() {
    let mut output = sample();
    output.incorporate_materialized_txn_output(
        vec![(5, WriteOp::Modification(15u128.to_le_bytes().to_vec()))],
        vec![(1, WriteOp::Modification(vec![0xaa])), (9, WriteOp::Modification(vec![0xbb]))],
        vec![vec![0xf1], vec![0xf2], vec![0xf3]],
    );
    assert!(output.aggregator_v1_delta_set().is_empty());
    assert!(output.delayed_field_change_set().is_empty());
    assert_eq!(
        output.aggregator_v1_write_set(),
        vec![
            (4, WriteOp::Modification(9u128.to_le_bytes().to_vec())),
            (5, WriteOp::Modification(15u128.to_le_bytes().to_vec())),
        ]
    );
    let resources = output.resource_write_set();
    assert_eq!(
        plain(&resources),
        vec![
            (1, WriteOp::Modification(vec![1])),
            (2, WriteOp::Deletion),
            (1, WriteOp::Modification(vec![0xaa])),
            (9, WriteOp::Modification(vec![0xbb])),
        ]
    );
    assert!(matches!(resources[0].2.as_deref(), Some(MoveTypeLayout::U64)));
    assert!(resources[2].2.is_none());
    assert!(resources[3].2.is_none());
    let events = output.get_events();
    assert_eq!(payloads(&events), vec![vec![0xf1], vec![0xf2], vec![0xf3]]);
    assert!(events.iter().all(|e| e.1.is_none()));
    assert_eq!(output.module_write_set(), vec![(3, WriteOp::Modification(vec![3, 3]))]);
    assert_eq!(output.fee_statement(), fee());
    // The patched value of key 1 is the one that reaches the state.
    let writes = state_writes_of(&output);
    let last = writes.iter().rev().find(|w| w.0 == 1).unwrap();
    assert_eq!(last.1, WriteOp::Modification(vec![0xaa]));
}

#[test]
fn list_copies_are_equal_to_their_source() {
    let writes = vec![(1, WriteOp::Modification(vec![1])), (2, WriteOp::Deletion)];
    assert_eq!(copy_writes(&writes), writes);
    let resources = vec![
        (1, WriteOp::Modification(vec![1]), Some(Arc::new(MoveTypeLayout::Address))),
        (2, WriteOp::Deletion, None),
    ];
    let copy = copy_resource_writes(&resources);
    assert_eq!(plain(&copy), plain(&resources));
    assert!(matches!(copy[0].2.as_deref(), Some(MoveTypeLayout::Address)));
    assert!(copy[1].2.is_none());
    let events = vec![(vec![1u8, 2], Some(MoveTypeLayout::Signer)), (vec![], None)];
    let copy = copy_events(&events);
    assert_eq!(payloads(&copy), payloads(&events));
    assert!(matches!(copy[0].1, Some(MoveTypeLayout::Signer)));
    assert!(copy[1].1.is_none());
    assert_eq!(copy_items(&vec![3u64, 1, 2]), vec![3, 1, 2]);
    assert_eq!(copy_items(&Vec::<u64>::new()), Vec::<u64>::new());
}
