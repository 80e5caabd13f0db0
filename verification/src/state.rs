use std::collections::HashMap;
use vstd::prelude::*;

verus! {

/// Identifies a slot of the state.
pub type StateKey = u64;

/// The state as a mathematical map: the bytes held under each key that is
/// present.
pub type StateView = Map<StateKey, Seq<u8>>;

/// What a write leaves under its key: bytes, or nothing after a deletion.
pub type WriteView = (StateKey, Option<Seq<u8>>);

/// A change to one slot of the state.
#[derive(Debug, PartialEq, Eq)]
pub enum WriteOp {
    /// The slot holds these bytes afterwards.
    Modification(Vec<u8>),
    /// The slot is empty afterwards.
    Deletion,
}

impl View for WriteOp {
    type V = Option<Seq<u8>>;

    open spec fn view(&self) -> Option<Seq<u8>> {
        match self {
            WriteOp::Modification(bytes) => Some(bytes@),
            WriteOp::Deletion => None,
        }
    }
}

impl WriteOp {
    /// A copy of this write.
    pub fn duplicate(&self) -> (copy: WriteOp)
        ensures
            copy@ == self@,
    {
        match self {
            WriteOp::Modification(bytes) => WriteOp::Modification(copy_bytes(bytes)),
            WriteOp::Deletion => WriteOp::Deletion,
        }
    }
}

/// A copy of `bytes`.
pub fn copy_bytes(bytes: &Vec<u8>) -> (copy: Vec<u8>)
    ensures
        copy@ == bytes@,
{
    let mut copy: Vec<u8> = Vec::new();
    let mut i: usize = 0;
    while i < bytes.len()
        invariant
            i <= bytes.len(),
            copy@ == bytes@.subrange(0, i as int),
        decreases bytes.len() - i,
    {
        copy.push(bytes[i]);
        i += 1;
    }
    copy
}

/// What is held under `key`.
pub open spec fn lookup(state: StateView, key: StateKey) -> Option<Seq<u8>> {
    if state.contains_key(key) {
        Some(state[key])
    } else {
        None
    }
}

/// The state after one write.
pub open spec fn apply_write(state: StateView, write: WriteView) -> StateView {
    match write.1 {
        Some(bytes) => state.insert(write.0, bytes),
        None => state.remove(write.0),
    }
}

/// The state after a sequence of writes, applied in order.
pub open spec fn apply_writes(state: StateView, writes: Seq<WriteView>) -> StateView
    decreases writes.len(),
{
    if writes.len() == 0 {
        state
    } else {
        apply_write(apply_writes(state, writes.drop_last()), writes.last())
    }
}

/// What the last write to `key` in `writes` leaves there, if `writes`
/// touches `key` at all.
pub open spec fn last_write(writes: Seq<WriteView>, key: StateKey) -> Option<Option<Seq<u8>>>
    decreases writes.len(),
{
    if writes.len() == 0 {
        None
    } else if writes.last().0 == key {
        Some(writes.last().1)
    } else {
        last_write(writes.drop_last(), key)
    }
}

/// The views of a list of writes.
pub open spec fn writes_view(writes: Seq<(StateKey, WriteOp)>) -> Seq<WriteView> {
    Seq::new(writes.len(), |i: int| (writes[i].0, writes[i].1@))
}

/// After a sequence of writes a key holds what the last write to it left,
/// and what it held before where no write touched it.
pub proof fn lemma_lookup_after_writes(state: StateView, writes: Seq<WriteView>, key: StateKey)
    ensures
        lookup(apply_writes(state, writes), key) == match last_write(writes, key) {
            Some(left) => left,
            None => lookup(state, key),
        },
    decreases writes.len(),
{
    if writes.len() > 0 {
        lemma_lookup_after_writes(state, writes.drop_last(), key);
    }
}

/// The committed state: the bytes under each key.
pub struct State {
    slots: HashMap<StateKey, Vec<u8>>,
}

impl View for State {
    type V = StateView;

    closed spec fn view(&self) -> StateView {
        Map::new(|key: StateKey| self.slots@.contains_key(key), |key: StateKey| self.slots@[key]@)
    }
}

impl State {
    /// The empty state.
    pub fn new() -> (state: State)
        ensures
            state@ == Map::<StateKey, Seq<u8>>::empty(),
    {
        let state = State { slots: HashMap::new() };
        state
    }

    /// The bytes under `key`, if the key is present.
    pub fn get(&self, key: StateKey) -> (value: Option<&Vec<u8>>)
        ensures
            match value {
                Some(bytes) => lookup(self@, key) == Some(bytes@),
                None => lookup(self@, key).is_none(),
            },
    {
        broadcast use vstd::std_specs::hash::group_hash_axioms;

        self.slots.get(&key)
    }

    /// Puts `bytes` under `key`.
    pub fn set(&mut self, key: StateKey, bytes: Vec<u8>)
        ensures
            final(self)@ == old(self)@.insert(key, bytes@),
    {
        broadcast use vstd::std_specs::hash::group_hash_axioms;

        self.slots.insert(key, bytes);
    }

    /// Empties the slot under `key`.
    pub fn remove(&mut self, key: StateKey)
        ensures
            final(self)@ == old(self)@.remove(key),
    {
        broadcast use vstd::std_specs::hash::group_hash_axioms;

        self.slots.remove(&key);
    }

    /// Applies `writes` in order.
    pub fn apply(&mut self, writes: &Vec<(StateKey, WriteOp)>)
        ensures
            final(self)@ == apply_writes(old(self)@, writes_view(writes@)),
    {
        let mut i: usize = 0;
        while i < writes.len()
            invariant
                i <= writes.len(),
                self@ == apply_writes(old(self)@, writes_view(writes@).subrange(0, i as int)),
            decreases writes.len() - i,
        {
            let ghost done = writes_view(writes@).subrange(0, i as int);
            let ghost next = writes_view(writes@).subrange(0, i + 1);
            assert(next.drop_last() =~= done);
            match &writes[i].1 {
                WriteOp::Modification(bytes) => {
                    self.set(writes[i].0, copy_bytes(bytes));
                },
                WriteOp::Deletion => {
                    self.remove(writes[i].0);
                },
            }
            i += 1;
        }
        assert(writes_view(writes@).subrange(0, i as int) =~= writes_view(writes@));
    }
}

} // verus!
