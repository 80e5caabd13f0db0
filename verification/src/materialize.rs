use crate::delta::DeltaOp;
use crate::output::OutputView;
use crate::state::{
    apply_write, lookup, writes_view, State, StateKey, StateView, WriteOp, WriteView,
};
use crate::task::ExecutionStatus;
use vstd::bytes::{
    lemma_auto_spec_u128_to_from_le_bytes, spec_u128_from_le_bytes, spec_u128_to_le_bytes,
    u128_from_le_bytes, u128_to_le_bytes,
};
use vstd::prelude::*;

verus! {

/// The value of an aggregator that is stored as `bytes`: sixteen bytes,
/// least significant first.
pub open spec fn aggregator_value(bytes: Seq<u8>) -> Option<u128> {
    if bytes.len() == 16 {
        Some(spec_u128_from_le_bytes(bytes))
    } else {
        None
    }
}

/// The write that `delta` on `key` resolves to when `found` is what the key
/// holds: the stored value with the delta applied. There is none where the
/// key holds no aggregator or a bound is in the way.
pub open spec fn resolved_over(found: Option<Seq<u8>>, key: StateKey, delta: DeltaOp) -> Option<
    WriteView,
> {
    match found {
        Some(bytes) => match aggregator_value(bytes) {
            Some(base) => match delta.applied(base) {
                Ok(value) => Some((key, Some(spec_u128_to_le_bytes(value)))),
                Err(_) => None,
            },
            None => None,
        },
        None => None,
    }
}

/// The write that `delta` on `key` resolves to over `state`.
pub open spec fn resolved_delta(state: StateView, key: StateKey, delta: DeltaOp) -> Option<
    WriteView,
> {
    resolved_over(lookup(state, key), key, delta)
}

/// The writes that `deltas` resolve to over `state`, one per delta and in
/// their order; none unless every delta resolves.
pub open spec fn resolved_deltas(state: StateView, deltas: Seq<(StateKey, DeltaOp)>) -> Option<
    Seq<WriteView>,
> {
    if forall|i: int|
        0 <= i < deltas.len() ==> (#[trigger] resolved_delta(
            state,
            deltas[i].0,
            deltas[i].1,
        )).is_some() {
        Some(
            Seq::new(
                deltas.len(),
                |i: int| resolved_delta(state, deltas[i].0, deltas[i].1).unwrap(),
            ),
        )
    } else {
        None
    }
}

/// The write that a delta resolves to holds the stored value plus the
/// change of the delta.
pub proof fn lemma_resolved_value(state: StateView, key: StateKey, delta: DeltaOp)
    requires
        resolved_delta(state, key, delta).is_some(),
    ensures
        resolved_delta(state, key, delta).unwrap().0 == key,
        resolved_delta(state, key, delta).unwrap().1 matches Some(bytes) && aggregator_value(bytes)
            == Some((aggregator_value(state[key]).unwrap() + delta.update.signed()) as u128),
{
    lemma_auto_spec_u128_to_from_le_bytes();
}

/// Delta commutativity: where two deltas on one aggregator resolve one
/// after the other, each over the state that the write of the other has
/// left, both orders leave the same value in the state: the stored value
/// plus both changes.
pub proof fn lemma_resolution_order_is_irrelevant(
    state: StateView,
    key: StateKey,
    first: DeltaOp,
    second: DeltaOp,
)
    requires
        resolved_delta(state, key, first) matches Some(write) && resolved_delta(
            apply_write(state, write),
            key,
            second,
        ).is_some(),
        resolved_delta(state, key, second) matches Some(write) && resolved_delta(
            apply_write(state, write),
            key,
            first,
        ).is_some(),
    ensures
        ({
            let one_way = apply_write(
                apply_write(state, resolved_delta(state, key, first).unwrap()),
                resolved_delta(
                    apply_write(state, resolved_delta(state, key, first).unwrap()),
                    key,
                    second,
                ).unwrap(),
            );
            let other_way = apply_write(
                apply_write(state, resolved_delta(state, key, second).unwrap()),
                resolved_delta(
                    apply_write(state, resolved_delta(state, key, second).unwrap()),
                    key,
                    first,
                ).unwrap(),
            );
            &&& one_way == other_way
            &&& aggregator_value(one_way[key]) == Some(
                (aggregator_value(state[key]).unwrap() + first.update.signed()
                    + second.update.signed()) as u128,
            )
        }),
{
    lemma_auto_spec_u128_to_from_le_bytes();
    let after_first = apply_write(state, resolved_delta(state, key, first).unwrap());
    let after_second = apply_write(state, resolved_delta(state, key, second).unwrap());
    lemma_resolved_value(state, key, first);
    lemma_resolved_value(state, key, second);
    lemma_resolved_value(after_first, key, second);
    lemma_resolved_value(after_second, key, first);
    let one_way = apply_write(after_first, resolved_delta(after_first, key, second).unwrap());
    let other_way = apply_write(after_second, resolved_delta(after_second, key, first).unwrap());
    assert(one_way =~= other_way);
}

/// The status as a value over output views.
pub open spec fn status_view<O: View, E>(status: ExecutionStatus<O, E>) -> ExecutionStatus<
    O::V,
    E,
> {
    match status {
        ExecutionStatus::Success(output) => ExecutionStatus::Success(output@),
        ExecutionStatus::Abort(error) => ExecutionStatus::Abort(error),
        ExecutionStatus::SkipRest(output) => ExecutionStatus::SkipRest(output@),
    }
}

/// The status of an execution that deferred its deltas, after the deltas
/// were resolved over `state` and folded into the output. There is none
/// where a delta does not resolve.
pub open spec fn materialized<E>(
    status: ExecutionStatus<OutputView, E>,
    state: StateView,
) -> Option<ExecutionStatus<OutputView, E>> {
    match status {
        ExecutionStatus::Success(output) => match resolved_deltas(
            state,
            output.aggregator_v1_deltas,
        ) {
            Some(writes) => Some(ExecutionStatus::Success(output.with_delta_writes(writes))),
            None => None,
        },
        ExecutionStatus::SkipRest(output) => match resolved_deltas(
            state,
            output.aggregator_v1_deltas,
        ) {
            Some(writes) => Some(ExecutionStatus::SkipRest(output.with_delta_writes(writes))),
            None => None,
        },
        ExecutionStatus::Abort(error) => Some(ExecutionStatus::Abort(error)),
    }
}

/// Resolves one delta, given what its key holds.
pub fn resolve_over(found: Option<&Vec<u8>>, key: StateKey, delta: &DeltaOp) -> (write: Option<
    (StateKey, WriteOp),
>)
    ensures
        match write {
            Some(w) => resolved_over(
                match found {
                    Some(bytes) => Some(bytes@),
                    None => None,
                },
                key,
                *delta,
            ) == Some((w.0, w.1@)),
            None => resolved_over(
                match found {
                    Some(bytes) => Some(bytes@),
                    None => None,
                },
                key,
                *delta,
            ).is_none(),
        },
{
    match found {
        Some(bytes) => {
            if bytes.len() == 16 {
                let base = u128_from_le_bytes(bytes.as_slice());
                match delta.apply_to(base) {
                    Ok(value) => Some((key, WriteOp::Modification(u128_to_le_bytes(value)))),
                    Err(_) => None,
                }
            } else {
                None
            }
        },
        None => None,
    }
}

/// Resolves one delta over the committed state.
pub fn resolve_delta(state: &State, key: StateKey, delta: &DeltaOp) -> (write: Option<
    (StateKey, WriteOp),
>)
    ensures
        match write {
            Some(w) => resolved_delta(state@, key, *delta) == Some((w.0, w.1@)),
            None => resolved_delta(state@, key, *delta).is_none(),
        },
{
    resolve_over(state.get(key), key, delta)
}

/// Resolves every delta over the committed state, or none where one of them
/// does not resolve.
pub fn resolve_deltas(state: &State, deltas: &Vec<(StateKey, DeltaOp)>) -> (writes: Option<
    Vec<(StateKey, WriteOp)>,
>)
    ensures
        match writes {
            Some(w) => resolved_deltas(state@, deltas@) == Some(writes_view(w@)),
            None => resolved_deltas(state@, deltas@).is_none(),
        },
{
    let mut writes: Vec<(StateKey, WriteOp)> = Vec::new();
    let mut i: usize = 0;
    while i < deltas.len()
        invariant
            i <= deltas.len(),
            writes.len() == i,
            forall|k: int|
                0 <= k < i ==> (#[trigger] resolved_delta(state@, deltas[k].0, deltas[k].1))
                    == Some((writes[k].0, writes[k].1@)),
        decreases deltas.len() - i,
    {
        match resolve_delta(state, deltas[i].0, &deltas[i].1) {
            Some(write) => {
                writes.push(write);
            },
            None => {
                return None;
            },
        }
        i += 1;
    }
    assert(resolved_deltas(state@, deltas@).unwrap() =~= writes_view(writes@));
    Some(writes)
}

} // verus!
