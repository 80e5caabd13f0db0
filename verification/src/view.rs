use crate::state::{
    apply_writes, copy_bytes, last_write, lemma_lookup_after_writes, lookup, writes_view, State,
    StateKey, StateView, WriteOp, WriteView,
};
use crate::task::TxnIndex;
use vstd::prelude::*;

verus! {

/// A read as the view answered it: the key, and the bytes found there.
pub type ReadView = (StateKey, Option<Seq<u8>>);

/// The views of optional bytes.
pub open spec fn bytes_view(bytes: Option<Vec<u8>>) -> Option<Seq<u8>> {
    match bytes {
        Some(b) => Some(b@),
        None => None,
    }
}

/// The views of a list of captured reads.
pub open spec fn reads_view(reads: Seq<(StateKey, Option<Vec<u8>>)>) -> Seq<ReadView> {
    Seq::new(reads.len(), |i: int| (reads[i].0, bytes_view(reads[i].1)))
}

/// The views of the write lists of a block, one list per transaction.
pub open spec fn versions_view(versions: Seq<Vec<(StateKey, WriteOp)>>) -> Seq<Seq<WriteView>> {
    Seq::new(versions.len(), |j: int| writes_view(versions[j]@))
}

/// The state that a transaction sees: the committed state, overlaid with the
/// writes of the transactions `first..end`, in index order.
pub open spec fn overlay(
    committed: StateView,
    versions: Seq<Seq<WriteView>>,
    first: int,
    end: int,
) -> StateView
    decreases end - first,
{
    if end <= first {
        committed
    } else {
        apply_writes(overlay(committed, versions, first, end - 1), versions[end - 1])
    }
}

/// Every read in `reads` would be answered by `state` as it was answered
/// when it was captured.
pub open spec fn reads_hold(reads: Seq<ReadView>, state: StateView) -> bool {
    forall|i: int| 0 <= i < reads.len() ==> lookup(state, (#[trigger] reads[i]).0) == reads[i].1
}

/// Whether two byte strings are equal.
pub fn same_bytes(a: &Vec<u8>, b: &Vec<u8>) -> (same: bool)
    ensures
        same == (a@ == b@),
{
    if a.len() != b.len() {
        return false;
    }
    let mut i: usize = 0;
    while i < a.len()
        invariant
            a.len() == b.len(),
            i <= a.len(),
            a@.subrange(0, i as int) == b@.subrange(0, i as int),
        decreases a.len() - i,
    {
        if a[i] != b[i] {
            return false;
        }
        i += 1;
    }
    assert(a@ =~= a@.subrange(0, i as int));
    assert(b@ =~= b@.subrange(0, i as int));
    true
}

/// What the last write to `key` in `writes` leaves there.
pub fn find_last_write(writes: &Vec<(StateKey, WriteOp)>, key: StateKey) -> (found: Option<
    Option<Vec<u8>>,
>)
    ensures
        match found {
            Some(left) => last_write(writes_view(writes@), key) == Some(bytes_view(left)),
            None => last_write(writes_view(writes@), key).is_none(),
        },
{
    let mut i: usize = writes.len();
    assert(writes_view(writes@).subrange(0, i as int) =~= writes_view(writes@));
    while i > 0
        invariant
            i <= writes.len(),
            last_write(writes_view(writes@), key) == last_write(
                writes_view(writes@).subrange(0, i as int),
                key,
            ),
        decreases i,
    {
        let ghost prefix = writes_view(writes@).subrange(0, i as int);
        i -= 1;
        assert(prefix.drop_last() =~= writes_view(writes@).subrange(0, i as int));
        if writes[i].0 == key {
            return Some(
                match &writes[i].1 {
                    WriteOp::Modification(bytes) => Some(copy_bytes(bytes)),
                    WriteOp::Deletion => None,
                },
            );
        }
    }
    None
}

/// A key of the overlaid state holds what the last of the transactions
/// `first..end` that wrote it left there.
pub proof fn lemma_lookup_in_overlay(
    committed: StateView,
    versions: Seq<Seq<WriteView>>,
    first: int,
    end: int,
    key: StateKey,
)
    requires
        first < end,
    ensures
        lookup(overlay(committed, versions, first, end), key) == match last_write(
            versions[end - 1],
            key,
        ) {
            Some(left) => left,
            None => lookup(overlay(committed, versions, first, end - 1), key),
        },
{
    lemma_lookup_after_writes(overlay(committed, versions, first, end - 1), versions[end - 1], key);
}

/// The highest of the transactions `first..end` that wrote `key`, if one of
/// them did.
pub open spec fn latest_writer(
    versions: Seq<Seq<WriteView>>,
    first: int,
    end: int,
    key: StateKey,
) -> Option<int>
    decreases end - first,
{
    if end <= first {
        None
    } else if last_write(versions[end - 1], key).is_some() {
        Some(end - 1)
    } else {
        latest_writer(versions, first, end - 1, key)
    }
}

/// The transaction that a read of `key` waits for: the latest writer of the
/// key among `first..end`, where what it wrote is only an estimate, because
/// its execution was discarded and has not been repeated.
pub open spec fn blocked_by(
    versions: Seq<Seq<WriteView>>,
    estimates: Seq<bool>,
    first: int,
    end: int,
    key: StateKey,
) -> Option<TxnIndex> {
    match latest_writer(versions, first, end, key) {
        Some(writer) => if estimates[writer] {
            Some(writer as TxnIndex)
        } else {
            None
        },
        None => None,
    }
}

/// What a read through a view finds.
#[derive(Debug, PartialEq, Eq)]
pub enum ReadResult {
    /// The bytes under the key, or nothing where the key is empty.
    Resolved(Option<Vec<u8>>),
    /// The key was last written by this lower transaction, whose execution
    /// was discarded: the value is about to change, and the reader has to
    /// give up with a speculative error.
    Dependency(TxnIndex),
}

/// The view of the state that one transaction executes against. It answers
/// reads as of the transaction's index and keeps a record of every answer.
pub struct LatestView<'a> {
    committed: &'a State,
    versions: &'a Vec<Vec<(StateKey, WriteOp)>>,
    estimates: &'a Vec<bool>,
    first: usize,
    txn_idx: TxnIndex,
    reads: Vec<(StateKey, Option<Vec<u8>>)>,
    blocked: Option<TxnIndex>,
}

impl<'a> LatestView<'a> {
    /// The view covers transactions of its block, every read that it
    /// captured is one that its snapshot answers in the same way, and if it
    /// met a dependency, then on a key that it is blocked on.
    pub closed spec fn wf(self) -> bool {
        &&& self.first <= self.txn_idx <= self.versions@.len()
        &&& self.estimates@.len() == self.versions@.len()
        &&& reads_hold(reads_view(self.reads@), self.snapshot())
        &&& self.blocked matches Some(writer) ==> exists|key: StateKey|
            self.blocking(key) == Some(writer)
    }

    /// The state that reads are answered from.
    pub closed spec fn snapshot(self) -> StateView {
        overlay(
            self.committed@,
            versions_view(self.versions@),
            self.first as int,
            self.txn_idx as int,
        )
    }

    /// The transaction that a read of `key` waits for, if it has to wait.
    pub closed spec fn blocking(self, key: StateKey) -> Option<TxnIndex> {
        blocked_by(
            versions_view(self.versions@),
            self.estimates@,
            self.first as int,
            self.txn_idx as int,
            key,
        )
    }

    /// Whether one of `reads` is a read of a key that this view is blocked
    /// on.
    pub open spec fn blocks_any(self, reads: Seq<ReadView>) -> bool {
        exists|i: int| 0 <= i < reads.len() && self.blocking((#[trigger] reads[i]).0).is_some()
    }

    /// The index of the transaction that this view serves.
    pub closed spec fn index(self) -> TxnIndex {
        self.txn_idx
    }

    /// The reads answered with a value so far, in order.
    pub closed spec fn captured_reads(self) -> Seq<ReadView> {
        reads_view(self.reads@)
    }

    /// The transaction of the first dependency that a read met, if one did.
    pub closed spec fn blocked_on(self) -> Option<TxnIndex> {
        self.blocked
    }

    /// A view that met a dependency met it on a key that it is blocked on.
    pub proof fn lemma_blocked_on_a_key(self)
        requires
            self.wf(),
            self.blocked_on().is_some(),
        ensures
            exists|key: StateKey| self.blocking(key) == self.blocked_on(),
    {
        let key = choose|key: StateKey| self.blocking(key) == Some(self.blocked->Some_0);
        assert(self.blocking(key) == self.blocked_on());
    }

    /// A view for transaction `txn_idx` over the committed state and the
    /// writes of the transactions `first..txn_idx`, of which those marked in
    /// `estimates` come from executions that were discarded.
    pub fn new(
        committed: &'a State,
        versions: &'a Vec<Vec<(StateKey, WriteOp)>>,
        estimates: &'a Vec<bool>,
        first: usize,
        txn_idx: TxnIndex,
    ) -> (view: LatestView<'a>)
        requires
            first <= txn_idx <= versions@.len(),
            estimates@.len() == versions@.len(),
        ensures
            view.wf(),
            view.snapshot() == overlay(
                committed@,
                versions_view(versions@),
                first as int,
                txn_idx as int,
            ),
            forall|key: StateKey|
                #[trigger] view.blocking(key) == blocked_by(
                    versions_view(versions@),
                    estimates@,
                    first as int,
                    txn_idx as int,
                    key,
                ),
            view.index() == txn_idx,
            view.captured_reads() == Seq::<ReadView>::empty(),
            view.blocked_on().is_none(),
    {
        let view = LatestView {
            committed,
            versions,
            estimates,
            first,
            txn_idx,
            reads: Vec::new(),
            blocked: None,
        };
        view
    }

    /// The index of the transaction that this view serves.
    pub fn txn_idx(&self) -> (idx: TxnIndex)
        ensures
            idx == self.index(),
    {
        self.txn_idx
    }

    /// The transaction of the first dependency that a read met, if one did.
    pub fn dependency(&self) -> (writer: Option<TxnIndex>)
        ensures
            writer == self.blocked_on(),
    {
        self.blocked
    }

    /// Reads `key` as of this view's transaction. A value is recorded as a
    /// captured read. Where the latest lower write to the key is an
    /// estimate, the read finds a dependency instead, and the view remembers
    /// the first one.
    pub fn get(&mut self, key: StateKey) -> (found: ReadResult)
        requires
            old(self).wf(),
        ensures
            final(self).wf(),
            final(self).snapshot() == old(self).snapshot(),
            forall|k: StateKey| #[trigger] final(self).blocking(k) == old(self).blocking(k),
            final(self).index() == old(self).index(),
            match found {
                ReadResult::Resolved(value) => {
                    &&& old(self).blocking(key).is_none()
                    &&& bytes_view(value) == lookup(old(self).snapshot(), key)
                    &&& final(self).captured_reads() == old(self).captured_reads().push(
                        (key, bytes_view(value)),
                    )
                    &&& final(self).blocked_on() == old(self).blocked_on()
                },
                ReadResult::Dependency(writer) => {
                    &&& old(self).blocking(key) == Some(writer)
                    &&& final(self).captured_reads() == old(self).captured_reads()
                    &&& final(self).blocked_on() == match old(self).blocked_on() {
                        Some(earlier) => Some(earlier),
                        None => Some(writer),
                    }
                },
            },
    {
        let ghost committed = self.committed@;
        let ghost versions = versions_view(self.versions@);
        let ghost first = self.first as int;
        let mut j: usize = self.txn_idx as usize;
        let mut found: Option<Option<Vec<u8>>> = None;
        while j > self.first && found.is_none()
            invariant
                self.first <= j <= self.txn_idx <= self.versions@.len(),
                committed == self.committed@,
                versions == versions_view(self.versions@),
                first == self.first,
                *self == *old(self),
                match found {
                    Some(left) => {
                        &&& bytes_view(left) == lookup(self.snapshot(), key)
                        &&& latest_writer(versions, first, self.txn_idx as int, key) == Some(
                            j as int,
                        )
                        &&& j < self.txn_idx
                    },
                    None => {
                        &&& lookup(self.snapshot(), key) == lookup(
                            overlay(committed, versions, first, j as int),
                            key,
                        )
                        &&& latest_writer(versions, first, self.txn_idx as int, key)
                            == latest_writer(versions, first, j as int, key)
                    },
                },
            decreases j + (if found.is_none() { 1int } else { 0int }),
        {
            proof {
                lemma_lookup_in_overlay(committed, versions, first, j as int, key);
            }
            j -= 1;
            found = find_last_write(&self.versions[j], key);
        }
        let answer = match found {
            Some(left) => if self.estimates[j] {
                None
            } else {
                Some(left)
            },
            None => Some(
                match self.committed.get(key) {
                    Some(bytes) => Some(copy_bytes(bytes)),
                    None => None,
                },
            ),
        };
        let ghost before = *self;
        let result = match answer {
            Some(value) => {
                let copy = match &value {
                    Some(bytes) => Some(copy_bytes(bytes)),
                    None => None,
                };
                self.reads.push((key, copy));
                assert(reads_view(self.reads@) =~= reads_view(before.reads@).push(
                    (key, bytes_view(value)),
                ));
                ReadResult::Resolved(value)
            },
            None => {
                let writer = j as TxnIndex;
                if self.blocked.is_none() {
                    self.blocked = Some(writer);
                }
                ReadResult::Dependency(writer)
            },
        };
        proof {
            assert forall|k: StateKey| #[trigger] self.blocking(k) == before.blocking(k) by {}
            if before.blocked.is_some() {
                let earlier = choose|k: StateKey|
                    before.blocking(k) == Some(before.blocked->Some_0);
                assert(self.blocking(earlier) == Some(self.blocked->Some_0));
            } else if answer.is_none() {
                assert(self.blocking(key) == self.blocked);
            }
        }
        result
    }

    /// Ends the view and hands out the reads that it captured.
    pub fn into_reads(self) -> (reads: Vec<(StateKey, Option<Vec<u8>>)>)
        requires
            self.wf(),
        ensures
            reads_view(reads@) == self.captured_reads(),
            reads_hold(reads_view(reads@), self.snapshot()),
    {
        self.reads
    }
}

} // verus!
