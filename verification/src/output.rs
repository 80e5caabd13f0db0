use crate::delta::DeltaOp;
use crate::state::{copy_bytes, writes_view, StateKey, WriteOp, WriteView};
use crate::task::TransactionOutput;
use move_core_types::value::MoveTypeLayout;
use std::sync::Arc;
use vstd::prelude::*;

verus! {

/// `move_core_types::value::MoveTypeLayout`, taken as an opaque value.
#[verifier::external_type_specification]
#[verifier::external_body]
pub struct ExMoveTypeLayout(MoveTypeLayout);

/// Identifies a delayed field.
pub type DelayedFieldID = u64;

/// A write to a resource, with the layout of the value where one is known.
pub type ResourceWrite = (StateKey, WriteOp, Option<Arc<MoveTypeLayout>>);

/// The view of a resource write.
pub type ResourceWriteView = (StateKey, Option<Seq<u8>>, Option<Arc<MoveTypeLayout>>);

/// An emitted event: its payload, with the layout where one is known.
pub type Event = (Vec<u8>, Option<MoveTypeLayout>);

/// The view of an event.
pub type EventView = (Seq<u8>, Option<MoveTypeLayout>);

/// A change to a delayed field.
#[derive(Debug, Clone, Copy, PartialEq, Eq, Structural)]
pub enum DelayedChange {
    /// The field comes into being with this value.
    Create(u128),
    /// The field changes by this delta.
    Apply(DeltaOp),
}

/// Gas and fee accounting of one transaction.
#[derive(Debug, Clone, Copy, PartialEq, Eq, Structural)]
pub struct FeeStatement {
    pub total_charge_gas_units: u64,
    pub execution_gas_units: u64,
    pub io_gas_units: u64,
    pub storage_fee_octas: u64,
    pub storage_fee_refund_octas: u64,
}

impl FeeStatement {
    /// The statement of a transaction that was charged nothing.
    pub open spec fn spec_zero() -> FeeStatement {
        FeeStatement {
            total_charge_gas_units: 0,
            execution_gas_units: 0,
            io_gas_units: 0,
            storage_fee_octas: 0,
            storage_fee_refund_octas: 0,
        }
    }

    #[verifier::when_used_as_spec(spec_zero)]
    pub fn zero() -> (fee: FeeStatement)
        ensures
            fee == Self::spec_zero(),
    {
        FeeStatement {
            total_charge_gas_units: 0,
            execution_gas_units: 0,
            io_gas_units: 0,
            storage_fee_octas: 0,
            storage_fee_refund_octas: 0,
        }
    }
}

/// The side effects of one transaction, as mathematical sequences, one per
/// kind of effect.
pub struct OutputView {
    pub resource_writes: Seq<ResourceWriteView>,
    pub module_writes: Seq<WriteView>,
    pub aggregator_v1_writes: Seq<WriteView>,
    pub aggregator_v1_deltas: Seq<(StateKey, DeltaOp)>,
    pub delayed_field_changes: Seq<(DelayedFieldID, DelayedChange)>,
    pub events: Seq<EventView>,
    pub fee_statement: FeeStatement,
}

/// A resource write without its layout.
pub open spec fn without_layout(write: ResourceWriteView) -> WriteView {
    (write.0, write.1)
}

/// A patched resource value as a resource write: no layout comes with it.
pub open spec fn as_resource_write(write: WriteView) -> ResourceWriteView {
    (write.0, write.1, None)
}

/// A patched event payload as an event: no layout comes with it.
pub open spec fn as_event(payload: Seq<u8>) -> EventView {
    (payload, None)
}

impl OutputView {
    /// The output of a transaction that was skipped: no effect, and a zero
    /// fee statement.
    pub open spec fn skip() -> OutputView {
        OutputView {
            resource_writes: Seq::empty(),
            module_writes: Seq::empty(),
            aggregator_v1_writes: Seq::empty(),
            aggregator_v1_deltas: Seq::empty(),
            delayed_field_changes: Seq::empty(),
            events: Seq::empty(),
            fee_statement: FeeStatement::spec_zero(),
        }
    }

    /// The writes that this output makes to the state, in the order in which
    /// they take effect: resources, then modules, then aggregators.
    pub open spec fn state_writes(self) -> Seq<WriteView> {
        self.resource_writes.map_values(|w: ResourceWriteView| without_layout(w))
            + self.module_writes + self.aggregator_v1_writes
    }

    /// Whether no deferred change is left in this output.
    pub open spec fn is_materialized(self) -> bool {
        self.aggregator_v1_deltas.len() == 0 && self.delayed_field_changes.len() == 0
    }

    /// This output after its aggregator deltas were resolved to
    /// `delta_writes`: the writes join the aggregator writes and no delta is
    /// left.
    pub open spec fn with_delta_writes(self, delta_writes: Seq<WriteView>) -> OutputView {
        OutputView {
            aggregator_v1_writes: self.aggregator_v1_writes + delta_writes,
            aggregator_v1_deltas: Seq::empty(),
            ..self
        }
    }

    /// This output after materialization: the resolved aggregator writes
    /// join the aggregator writes, the patched resource values follow the
    /// resource writes (and so override them), the patched events take the
    /// place of the events, and no delta or delayed-field change is left.
    pub open spec fn with_materialized(
        self,
        aggregator_v1_writes: Seq<WriteView>,
        patched_resource_writes: Seq<WriteView>,
        patched_events: Seq<Seq<u8>>,
    ) -> OutputView {
        OutputView {
            resource_writes: self.resource_writes + patched_resource_writes.map_values(
                |w: WriteView| as_resource_write(w),
            ),
            aggregator_v1_writes: self.aggregator_v1_writes + aggregator_v1_writes,
            aggregator_v1_deltas: Seq::empty(),
            delayed_field_changes: Seq::empty(),
            events: patched_events.map_values(|p: Seq<u8>| as_event(p)),
            ..self
        }
    }
}

/// The views of a list of resource writes.
pub open spec fn resource_writes_view(writes: Seq<ResourceWrite>) -> Seq<ResourceWriteView> {
    Seq::new(writes.len(), |i: int| (writes[i].0, writes[i].1@, writes[i].2))
}

/// The views of a list of events.
pub open spec fn events_view(events: Seq<Event>) -> Seq<EventView> {
    Seq::new(events.len(), |i: int| (events[i].0@, events[i].1))
}

/// The views of a list of event payloads.
pub open spec fn payloads_view(payloads: Seq<Vec<u8>>) -> Seq<Seq<u8>> {
    Seq::new(payloads.len(), |i: int| payloads[i]@)
}

/// `Arc::clone`: the copy shares the layout that `layout` points to.
#[verifier::external_body]
fn share_layout(layout: &Arc<MoveTypeLayout>) -> (copy: Arc<MoveTypeLayout>)
    ensures
        copy == *layout,
{
    Arc::clone(layout)
}

/// `MoveTypeLayout::clone`, which the type derives: the copy is the same
/// layout.
#[verifier::external_body]
fn clone_layout(layout: &MoveTypeLayout) -> (copy: MoveTypeLayout)
    ensures
        copy == *layout,
{
    layout.clone()
}

/// A copy of a list of writes.
pub fn copy_writes(writes: &Vec<(StateKey, WriteOp)>) -> (copy: Vec<(StateKey, WriteOp)>)
    ensures
        writes_view(copy@) == writes_view(writes@),
{
    let mut copy: Vec<(StateKey, WriteOp)> = Vec::new();
    let mut i: usize = 0;
    while i < writes.len()
        invariant
            i <= writes.len(),
            copy.len() == i,
            forall|k: int|
                0 <= k < i ==> copy[k].0 == writes[k].0 && (#[trigger] copy[k]).1@ == writes[k].1@,
        decreases writes.len() - i,
    {
        copy.push((writes[i].0, writes[i].1.duplicate()));
        i += 1;
    }
    copy
}

/// A copy of a list of resource writes.
pub fn copy_resource_writes(writes: &Vec<ResourceWrite>) -> (copy: Vec<ResourceWrite>)
    ensures
        resource_writes_view(copy@) == resource_writes_view(writes@),
{
    let mut copy: Vec<ResourceWrite> = Vec::new();
    let mut i: usize = 0;
    while i < writes.len()
        invariant
            i <= writes.len(),
            copy.len() == i,
            forall|k: int|
                0 <= k < i ==> copy[k].0 == writes[k].0 && (#[trigger] copy[k]).1@ == writes[k].1@
                    && copy[k].2 == writes[k].2,
        decreases writes.len() - i,
    {
        let layout = match &writes[i].2 {
            Some(shared) => Some(share_layout(shared)),
            None => None,
        };
        copy.push((writes[i].0, writes[i].1.duplicate(), layout));
        i += 1;
    }
    copy
}

/// A copy of a list of events.
pub fn copy_events(events: &Vec<Event>) -> (copy: Vec<Event>)
    ensures
        events_view(copy@) == events_view(events@),
{
    let mut copy: Vec<Event> = Vec::new();
    let mut i: usize = 0;
    while i < events.len()
        invariant
            i <= events.len(),
            copy.len() == i,
            forall|k: int|
                0 <= k < i ==> (#[trigger] copy[k]).0@ == events[k].0@ && copy[k].1 == events[k].1,
        decreases events.len() - i,
    {
        let layout = match &events[i].1 {
            Some(l) => Some(clone_layout(l)),
            None => None,
        };
        copy.push((copy_bytes(&events[i].0), layout));
        i += 1;
    }
    copy
}

/// A copy of a list of plain values.
pub fn copy_items<T: Copy>(items: &Vec<T>) -> (copy: Vec<T>)
    ensures
        copy@ == items@,
{
    let mut copy: Vec<T> = Vec::new();
    let mut i: usize = 0;
    while i < items.len()
        invariant
            i <= items.len(),
            copy@ == items@.subrange(0, i as int),
        decreases items.len() - i,
    {
        copy.push(items[i]);
        i += 1;
    }
    copy
}

/// The side effects of one transaction, held as plain lists.
#[derive(Debug)]
pub struct TxnOutput {
    pub resource_writes: Vec<ResourceWrite>,
    pub module_writes: Vec<(StateKey, WriteOp)>,
    pub aggregator_v1_writes: Vec<(StateKey, WriteOp)>,
    pub aggregator_v1_deltas: Vec<(StateKey, DeltaOp)>,
    pub delayed_field_changes: Vec<(DelayedFieldID, DelayedChange)>,
    pub events: Vec<Event>,
    pub fee_statement: FeeStatement,
}

impl View for TxnOutput {
    type V = OutputView;

    open spec fn view(&self) -> OutputView {
        OutputView {
            resource_writes: resource_writes_view(self.resource_writes@),
            module_writes: writes_view(self.module_writes@),
            aggregator_v1_writes: writes_view(self.aggregator_v1_writes@),
            aggregator_v1_deltas: self.aggregator_v1_deltas@,
            delayed_field_changes: self.delayed_field_changes@,
            events: events_view(self.events@),
            fee_statement: self.fee_statement,
        }
    }
}

impl TxnOutput {
    /// An output without effects that carries `fee_statement`.
    pub fn new(fee_statement: FeeStatement) -> (output: TxnOutput)
        ensures
            output@ == (OutputView { fee_statement, ..OutputView::skip() }),
    {
        let output = TxnOutput {
            resource_writes: Vec::new(),
            module_writes: Vec::new(),
            aggregator_v1_writes: Vec::new(),
            aggregator_v1_deltas: Vec::new(),
            delayed_field_changes: Vec::new(),
            events: Vec::new(),
            fee_statement,
        };
        assert(output@.resource_writes =~= Seq::empty());
        assert(output@.aggregator_v1_writes =~= Seq::empty());
        assert(output@.events =~= Seq::empty());
        output
    }
}

impl TransactionOutput for TxnOutput {
    fn resource_write_set(&self) -> (writes: Vec<ResourceWrite>) {
        copy_resource_writes(&self.resource_writes)
    }

    fn module_write_set(&self) -> (writes: Vec<(StateKey, WriteOp)>) {
        copy_writes(&self.module_writes)
    }

    fn aggregator_v1_write_set(&self) -> (writes: Vec<(StateKey, WriteOp)>) {
        copy_writes(&self.aggregator_v1_writes)
    }

    fn aggregator_v1_delta_set(&self) -> (deltas: Vec<(StateKey, DeltaOp)>) {
        copy_items(&self.aggregator_v1_deltas)
    }

    fn delayed_field_change_set(&self) -> (changes: Vec<(DelayedFieldID, DelayedChange)>) {
        copy_items(&self.delayed_field_changes)
    }

    fn get_events(&self) -> (events: Vec<Event>) {
        copy_events(&self.events)
    }

    fn skip_output() -> (output: TxnOutput) {
        TxnOutput::new(FeeStatement::zero())
    }

    fn incorporate_delta_writes(&mut self, delta_writes: Vec<(StateKey, WriteOp)>) {
        let ghost resolved = writes_view(delta_writes@);
        let mut delta_writes = delta_writes;
        self.aggregator_v1_writes.append(&mut delta_writes);
        self.aggregator_v1_deltas = Vec::new();
        assert(self@.aggregator_v1_writes =~= old(self)@.aggregator_v1_writes + resolved);
    }

    fn incorporate_materialized_txn_output(
        &mut self,
        aggregator_v1_writes: Vec<(StateKey, WriteOp)>,
        patched_resource_write_set: Vec<(StateKey, WriteOp)>,
        patched_events: Vec<Vec<u8>>,
    ) {
        let ghost resolved = writes_view(aggregator_v1_writes@);
        let ghost patched = writes_view(patched_resource_write_set@);
        let ghost payloads = payloads_view(patched_events@);
        let mut aggregator_v1_writes = aggregator_v1_writes;
        self.aggregator_v1_writes.append(&mut aggregator_v1_writes);

        let mut i: usize = 0;
        while i < patched_resource_write_set.len()
            invariant
                i <= patched_resource_write_set.len(),
                patched == writes_view(patched_resource_write_set@),
                self@.resource_writes == old(self)@.resource_writes + patched.subrange(
                    0,
                    i as int,
                ).map_values(|w: WriteView| as_resource_write(w)),
                self.module_writes == old(self).module_writes,
                self@.aggregator_v1_writes == old(self)@.aggregator_v1_writes + resolved,
                self.fee_statement == old(self).fee_statement,
            decreases patched_resource_write_set.len() - i,
        {
            let ghost before = self@.resource_writes;
            let key = patched_resource_write_set[i].0;
            let op = patched_resource_write_set[i].1.duplicate();
            self.resource_writes.push((key, op, None));
            assert(self@.resource_writes =~= before.push(as_resource_write(patched[i as int])));
            i += 1;
        }
        assert(patched.subrange(0, i as int) =~= patched);

        let mut events: Vec<Event> = Vec::new();
        let mut j: usize = 0;
        while j < patched_events.len()
            invariant
                j <= patched_events.len(),
                events.len() == j,
                forall|k: int|
                    0 <= k < j ==> (#[trigger] events[k]).0@ == patched_events[k]@
                        && events[k].1.is_none(),
            decreases patched_events.len() - j,
        {
            events.push((copy_bytes(&patched_events[j]), None));
            j += 1;
        }
        assert(events_view(events@) =~= payloads.map_values(|p: Seq<u8>| as_event(p)));
        self.events = events;
        self.aggregator_v1_deltas = Vec::new();
        self.delayed_field_changes = Vec::new();
    }

    fn fee_statement(&self) -> (fee: FeeStatement) {
        self.fee_statement
    }
}

} // verus!
