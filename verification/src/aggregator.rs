//! Collects the elders' signature shares over one payload until they make a signature.

use vstd::prelude::*;
use crate::bls::{
    bls_combined, bls_verifies, combine_shares, distinct_indices, share_valid, shares_valid,
    shares_view, slices_eq, spec_key_set_bytes, spec_public_key, spec_threshold,
    verify_signature, PublicKeySet, Signature, SignatureShare,
};
use crate::seq_util::lemma_filter_push;
use crate::signed::SignedShare;

verus! {

/// How long shares are kept when nothing else is asked for: fifteen minutes, in milliseconds.
pub const DEFAULT_EXPIRATION: u64 = 900_000;

/// Why adding a share gave no signature.
#[derive(Clone, Copy, PartialEq, Eq, Structural, Debug)]
pub enum AggregatorError {
    /// More shares are needed, or the elder's share was there already.
    NotEnoughShares,
    /// The signature for this payload was handed out before.
    AlreadyAggregated,
    /// The share is not good for the payload under its elder's key share, or the shares
    /// did not combine into a signature that verifies.
    FaultyShare,
}

/// The shares collected for one payload under one key set.
#[derive(Debug)]
struct Entry {
    payload: Vec<u8>,
    key_set: PublicKeySet,
    shares: Vec<(u64, SignatureShare)>,
    modified: u64,
    aggregated: bool,
}

/// The shares collected for one payload under one key set, as plain values: the shares with
/// their elders' indices, when the last one came, and whether the signature was handed out.
pub struct EntryView {
    pub payload: Seq<u8>,
    pub key_set: Seq<u8>,
    pub shares: Seq<(u64, SignatureShare)>,
    pub modified: u64,
    pub aggregated: bool,
}

/// Collects signature shares, by payload and key set, and combines them once there are more
/// than the key set's threshold. Shares that no other share has joined for the time of
/// expiration are dropped when the next one is added.
#[derive(Debug)]
pub struct SignatureAggregator {
    entries: Vec<Entry>,
    expiration: u64,
}

impl View for Entry {
    type V = EntryView;

    closed spec fn view(&self) -> EntryView {
        EntryView {
            payload: self.payload@,
            key_set: self.key_set@,
            shares: self.shares@,
            modified: self.modified,
            aggregated: self.aggregated,
        }
    }
}

/// The time that has passed since `then`, in milliseconds; none where the clock went back.
pub open spec fn spec_elapsed(now: u64, then: u64) -> int {
    if now >= then {
        now - then
    } else {
        0
    }
}

/// Whether the entry is still to be kept at the given time.
pub open spec fn entry_live(e: EntryView, now: u64, expiration: u64) -> bool {
    spec_elapsed(now, e.modified) < expiration
}

/// Every share of the entry is good for its payload, no elder has two, there are no more
/// than the threshold, and none once the signature was handed out.
pub open spec fn entry_wf(e: EntryView) -> bool {
    &&& spec_key_set_bytes(e.key_set)
    &&& distinct_indices(e.shares)
    &&& forall|i: int|
        0 <= i < e.shares.len() ==> share_valid(
            e.key_set,
            (#[trigger] e.shares[i]).0,
            e.shares[i].1.bytes@,
            e.payload,
        )
    &&& e.shares.len() <= spec_threshold(e.key_set)
    &&& e.aggregated ==> e.shares.len() == 0
}

/// Every entry is well formed, and no two are for one payload and key set.
pub open spec fn entries_wf(s: Seq<EntryView>) -> bool {
    &&& forall|i: int| 0 <= i < s.len() ==> entry_wf(#[trigger] s[i])
    &&& forall|i: int, j: int|
        0 <= i < s.len() && 0 <= j < s.len() && i != j ==> !((#[trigger] s[i]).payload == (#[trigger] s[j]).payload
            && s[i].key_set == s[j].key_set)
}

/// Whether there is an entry for the payload and the key set.
pub open spec fn has_entry(s: Seq<EntryView>, payload: Seq<u8>, key_set: Seq<u8>) -> bool {
    exists|i: int| 0 <= i < s.len() && (#[trigger] s[i]).payload == payload && s[i].key_set == key_set
}

/// Where the entry for the payload and the key set stands.
pub open spec fn index_of_entry(s: Seq<EntryView>, payload: Seq<u8>, key_set: Seq<u8>) -> int {
    choose|i: int| 0 <= i < s.len() && (#[trigger] s[i]).payload == payload && s[i].key_set == key_set
}

/// Whether one of the shares is the elder's.
pub open spec fn has_index(shares: Seq<(u64, SignatureShare)>, index: u64) -> bool {
    exists|i: int| 0 <= i < shares.len() && (#[trigger] shares[i]).0 == index
}

/// The entries with one put in the place of the entry for the same payload and key set, or
/// else at the end.
pub open spec fn put_entry(s: Seq<EntryView>, e: EntryView) -> Seq<EntryView> {
    if has_entry(s, e.payload, e.key_set) {
        s.update(index_of_entry(s, e.payload, e.key_set), e)
    } else {
        s.push(e)
    }
}

/// What adding a share comes to.
pub enum AddOutcome {
    /// The share is not good, or with it the shares make no signature that verifies: nothing
    /// is kept of it.
    Faulty,
    /// The signature was handed out before: nothing is kept of the share.
    Already,
    /// The elder's share was there already: nothing changes.
    Duplicate,
    /// The share is kept; more are needed.
    Waiting,
    /// These shares, the new one last, are more than the threshold: they are combined.
    Combined(Seq<(u64, SignatureShare)>),
}

/// What is to be done with a share, given what was found of it.
#[derive(Clone, Copy, PartialEq, Eq, Structural, Debug)]
pub enum AddStep {
    /// Refuse it: it is not good.
    Faulty,
    /// Refuse it: the signature was handed out before.
    Already,
    /// Pass it over: the elder's share is there already.
    Duplicate,
    /// Keep it and wait for more.
    Waiting,
    /// Keep it and combine the shares.
    Combine,
}

/// What is to be done with a share: `share_is_valid` says whether it is good for the payload,
/// `aggregated` whether the signature was handed out before, `duplicate` whether the elder's
/// share is kept already, `kept` how many shares are kept, and `threshold` how many are not
/// enough.
pub open spec fn spec_add_step(
    share_is_valid: bool,
    aggregated: bool,
    duplicate: bool,
    kept: int,
    threshold: int,
) -> AddStep {
    if !share_is_valid {
        AddStep::Faulty
    } else if aggregated {
        AddStep::Already
    } else if duplicate {
        AddStep::Duplicate
    } else if kept + 1 <= threshold {
        AddStep::Waiting
    } else {
        AddStep::Combine
    }
}

/// What is to be done with a share, given what was found of it.
pub fn add_step(share_is_valid: bool, aggregated: bool, duplicate: bool, kept: usize, threshold: usize) -> (step:
    AddStep)
    ensures
        step == spec_add_step(share_is_valid, aggregated, duplicate, kept as int, threshold as int),
{
    if !share_is_valid {
        AddStep::Faulty
    } else if aggregated {
        AddStep::Already
    } else if duplicate {
        AddStep::Duplicate
    } else if kept < threshold {
        AddStep::Waiting
    } else {
        AddStep::Combine
    }
}

/// What adding a share makes of the entries that are still live, and what it comes to.
pub open spec fn spec_add(
    live: Seq<EntryView>,
    now: u64,
    payload: Seq<u8>,
    key_set: Seq<u8>,
    index: u64,
    share: SignatureShare,
) -> (Seq<EntryView>, AddOutcome) {
    let e = if has_entry(live, payload, key_set) {
        live[index_of_entry(live, payload, key_set)]
    } else {
        EntryView { payload, key_set, shares: Seq::empty(), modified: now, aggregated: false }
    };
    let shares = e.shares.push((index, share));
    match spec_add_step(
        share_valid(key_set, index, share.bytes@, payload),
        e.aggregated,
        has_index(e.shares, index),
        e.shares.len() as int,
        spec_threshold(key_set),
    ) {
        AddStep::Faulty => (live, AddOutcome::Faulty),
        AddStep::Already => (live, AddOutcome::Already),
        AddStep::Duplicate => (live, AddOutcome::Duplicate),
        AddStep::Waiting => (
            put_entry(live, EntryView { shares, modified: now, ..e }),
            AddOutcome::Waiting,
        ),
        AddStep::Combine => if spec_combines(key_set, shares, payload) {
            (
                put_entry(
                    live,
                    EntryView { shares: Seq::empty(), modified: now, aggregated: true, ..e },
                ),
                AddOutcome::Combined(shares),
            )
        } else {
            (live, AddOutcome::Faulty)
        },
    }
}

/// Whether the shares combine into a signature that verifies for the payload under the key
/// set's public key.
pub open spec fn spec_combines(
    key_set: Seq<u8>,
    shares: Seq<(u64, SignatureShare)>,
    payload: Seq<u8>,
) -> bool {
    match bls_combined(key_set, shares_view(shares)) {
        Some(sig) => bls_verifies(spec_public_key(key_set), sig, payload),
        None => false,
    }
}

/// Whether the result of adding a share is the one that the outcome calls for. Where shares
/// are combined, the result is the signature that they combine into, and it verifies for the
/// payload under the key set's public key.
pub open spec fn result_fits(
    r: Result<Signature, AggregatorError>,
    outcome: AddOutcome,
    payload: Seq<u8>,
    key_set: Seq<u8>,
) -> bool {
    match outcome {
        AddOutcome::Faulty => r == Err::<Signature, AggregatorError>(AggregatorError::FaultyShare),
        AddOutcome::Already => r == Err::<Signature, AggregatorError>(
            AggregatorError::AlreadyAggregated,
        ),
        AddOutcome::Duplicate => r == Err::<Signature, AggregatorError>(
            AggregatorError::NotEnoughShares,
        ),
        AddOutcome::Waiting => r == Err::<Signature, AggregatorError>(
            AggregatorError::NotEnoughShares,
        ),
        AddOutcome::Combined(shares) => r matches Ok(sig) && bls_combined(
            key_set,
            shares_view(shares),
        ) == Some(sig.bytes@) && bls_verifies(spec_public_key(key_set), sig.bytes@, payload),
    }
}

/// The shares for a payload and a key set that are kept among the entries; none where the
/// signature was handed out.
pub open spec fn kept_shares(live: Seq<EntryView>, payload: Seq<u8>, key_set: Seq<u8>) -> Seq<
    (u64, SignatureShare),
> {
    if has_entry(live, payload, key_set) {
        live[index_of_entry(live, payload, key_set)].shares
    } else {
        Seq::empty()
    }
}

/// Whether the signature for a payload and a key set was handed out.
pub open spec fn was_aggregated(live: Seq<EntryView>, payload: Seq<u8>, key_set: Seq<u8>) -> bool {
    has_entry(live, payload, key_set) && live[index_of_entry(live, payload, key_set)].aggregated
}

/// Adding a share gives a signature exactly when the share is good for the payload, the
/// signature was not handed out before, the elder's share is new, with it the shares that
/// are kept for the payload and the key set are more than the threshold, and what they
/// combine into verifies. Those shares are then of different elders and each good for the
/// payload, and the result is the signature that they combine into, which verifies for the
/// payload under the key set's public key.
pub proof fn lemma_signature_iff_enough_shares(
    live: Seq<EntryView>,
    now: u64,
    payload: Seq<u8>,
    key_set: Seq<u8>,
    index: u64,
    share: SignatureShare,
    r: Result<Signature, AggregatorError>,
)
    requires
        entries_wf(live),
        result_fits(r, spec_add(live, now, payload, key_set, index, share).1, payload, key_set),
    ensures
        r is Ok <==> {
            &&& share_valid(key_set, index, share.bytes@, payload)
            &&& !was_aggregated(live, payload, key_set)
            &&& !has_index(kept_shares(live, payload, key_set), index)
            &&& kept_shares(live, payload, key_set).len() + 1 > spec_threshold(key_set)
            &&& spec_combines(
                key_set,
                kept_shares(live, payload, key_set).push((index, share)),
                payload,
            )
        },
        r matches Ok(sig) ==> {
            let shares = kept_shares(live, payload, key_set).push((index, share));
            &&& bls_verifies(spec_public_key(key_set), sig.bytes@, payload)
            &&& bls_combined(key_set, shares_view(shares)) == Some(sig.bytes@)
            &&& distinct_indices(shares)
            &&& forall|i: int|
                0 <= i < shares.len() ==> share_valid(
                    key_set,
                    (#[trigger] shares[i]).0,
                    shares[i].1.bytes@,
                    payload,
                )
        },
{
    if has_entry(live, payload, key_set) {
        let e = live[index_of_entry(live, payload, key_set)];
        assert(entry_wf(e));
    }
    let kept = kept_shares(live, payload, key_set);
    if r is Ok {
        let shares = kept.push((index, share));
        assert(distinct_indices(shares)) by {
            assert forall|a: int, b: int| 0 <= a < b < shares.len() implies (#[trigger] shares[a]).0
                != (#[trigger] shares[b]).0 by {
                if b == shares.len() - 1 {
                    assert(kept[a].0 != index);
                } else {
                    assert(kept[a].0 != kept[b].0);
                }
            }
        }
        assert forall|i: int| 0 <= i < shares.len() implies share_valid(
            key_set,
            (#[trigger] shares[i]).0,
            shares[i].1.bytes@,
            payload,
        ) by {
            if i < shares.len() - 1 {
                assert(shares[i] == kept[i]);
            }
        }
    }
}

/// The entries as plain values.
spec fn views(entries: Seq<Entry>) -> Seq<EntryView> {
    entries.map_values(|e: Entry| e@)
}

/// Drops the entries that are no longer live.
fn drop_expired(entries: &mut Vec<Entry>, now: u64, expiration: u64)
    requires
        entries_wf(views(old(entries)@)),
    ensures
        entries_wf(views(final(entries)@)),
        views(final(entries)@) == views(old(entries)@).filter(
            |e: EntryView| entry_live(e, now, expiration),
        ),
{
    let ghost before = views(entries@);
    let ghost keep = |e: EntryView| entry_live(e, now, expiration);
    let ghost mut j: int = 0;
    let mut i: usize = 0;
    proof {
        assert(before.take(0).filter(keep) =~= Seq::<EntryView>::empty()) by {
            reveal(Seq::filter);
        }
        assert(views(entries@) =~= before.take(0).filter(keep) + before.skip(0));
    }
    while i < entries.len()
        invariant
            0 <= j <= before.len(),
            i <= entries.len(),
            keep == |e: EntryView| entry_live(e, now, expiration),
            i == before.take(j).filter(keep).len(),
            views(entries@) == before.take(j).filter(keep) + before.skip(j),
            entries_wf(views(entries@)),
        decreases before.len() - j,
    {
        let ghost current = views(entries@);
        let ghost kept = before.take(j).filter(keep);
        proof {
            assert(current[i as int] == before.skip(j)[0]);
            assert(before.take(j + 1) == before.take(j).push(before[j]));
            lemma_filter_push(before.take(j), before[j], keep);
        }
        let elapsed: u64 = if now >= entries[i].modified {
            now - entries[i].modified
        } else {
            0
        };
        if elapsed < expiration {
            proof {
                assert(current =~= kept.push(before[j]) + before.skip(j + 1));
                j = j + 1;
            }
            i += 1;
        } else {
            let _ = entries.remove(i);
            proof {
                let after = views(entries@);
                assert(after =~= current.remove(i as int));
                assert(after =~= kept + before.skip(j + 1));
                assert forall|a: int, b: int|
                    0 <= a < after.len() && 0 <= b < after.len() && a != b implies !((#[trigger] after[a]).payload
                    == (#[trigger] after[b]).payload && after[a].key_set == after[b].key_set) by {
                    let a0 = if a < i { a } else { a + 1 };
                    let b0 = if b < i { b } else { b + 1 };
                    assert(after[a] == current[a0] && after[b] == current[b0]);
                }
                assert forall|a: int| 0 <= a < after.len() implies entry_wf(#[trigger] after[a]) by {
                    let a0 = if a < i { a } else { a + 1 };
                    assert(after[a] == current[a0]);
                }
                j = j + 1;
            }
        }
    }
    proof {
        assert(before.skip(j).len() == 0);
        assert(before.take(j) == before);
        assert(views(entries@) =~= before.filter(keep));
    }
}

/// Where the entry for the payload and the key set stands.
fn find_entry(entries: &Vec<Entry>, payload: &[u8], key_set: &PublicKeySet) -> (r: Option<usize>)
    requires
        entries_wf(views(entries@)),
    ensures
        match r {
            Some(i) => i < entries@.len() && has_entry(views(entries@), payload@, key_set@) && i
                == index_of_entry(views(entries@), payload@, key_set@),
            None => !has_entry(views(entries@), payload@, key_set@),
        },
{
    let mut i: usize = 0;
    while i < entries.len()
        invariant
            i <= entries.len(),
            entries_wf(views(entries@)),
            forall|k: int|
                0 <= k < i ==> !((#[trigger] views(entries@)[k]).payload == payload@ && views(
                    entries@,
                )[k].key_set == key_set@),
        decreases entries.len() - i,
    {
        if slices_eq(entries[i].payload.as_slice(), payload) && entries[i].key_set.same(key_set) {
            proof {
                let s = views(entries@);
                assert(s[i as int].payload == payload@ && s[i as int].key_set == key_set@);
                let k = index_of_entry(s, payload@, key_set@);
                if k != i {
                    assert(!(s[k].payload == s[i as int].payload && s[k].key_set
                        == s[i as int].key_set));
                }
            }
            return Some(i);
        }
        i += 1;
    }
    None
}

/// Whether one of the shares is the elder's.
fn find_index(shares: &Vec<(u64, SignatureShare)>, index: u64) -> (found: bool)
    ensures
        found == has_index(shares@, index),
{
    let mut i: usize = 0;
    while i < shares.len()
        invariant
            i <= shares.len(),
            forall|k: int| 0 <= k < i ==> (#[trigger] shares@[k]).0 != index,
        decreases shares.len() - i,
    {
        if shares[i].0 == index {
            return true;
        }
        i += 1;
    }
    false
}

/// A copy of the bytes.
fn copy_bytes(bytes: &[u8]) -> (copy: Vec<u8>)
    ensures
        copy@ == bytes@,
{
    let mut copy: Vec<u8> = Vec::new();
    copy.extend_from_slice(bytes);
    copy
}

impl SignatureAggregator {
    /// The entries as plain values.
    pub closed spec fn spec_entries(&self) -> Seq<EntryView> {
        views(self.entries@)
    }

    /// How long shares are kept, in milliseconds.
    pub closed spec fn spec_expiration(&self) -> u64 {
        self.expiration
    }

    /// Every entry is well formed, and no two are for one payload and key set. Every
    /// aggregator that the program holds is of this form.
    #[verifier::type_invariant]
    pub closed spec fn wf(&self) -> bool {
        entries_wf(self.spec_entries())
    }

    /// What the invariant says, for code that holds a value of the type.
    pub proof fn lemma_wf(&self)
        requires
            self.wf(),
        ensures
            entries_wf(self.spec_entries()),
    {
    }

    /// An aggregator that keeps shares for fifteen minutes.
    pub fn new() -> (aggregator: Self)
        ensures
            aggregator.wf(),
            aggregator.spec_entries() == Seq::<EntryView>::empty(),
            aggregator.spec_expiration() == DEFAULT_EXPIRATION,
    {
        Self::with_expiration(DEFAULT_EXPIRATION)
    }

    /// An aggregator that keeps shares for the given time, in milliseconds.
    pub fn with_expiration(expiration: u64) -> (aggregator: Self)
        ensures
            aggregator.wf(),
            aggregator.spec_entries() == Seq::<EntryView>::empty(),
            aggregator.spec_expiration() == expiration,
    {
        let aggregator = SignatureAggregator { entries: Vec::new(), expiration };
        assert(aggregator.spec_entries() =~= Seq::<EntryView>::empty());
        aggregator
    }

    /// Adds a share for the payload at the time `now`, in milliseconds, after dropping what
    /// has expired. Gives the signature once the shares for the payload under the share's key
    /// set are more than its threshold and combine into a signature that verifies under the
    /// key set's public key; where they do not, the share is refused as faulty.
    pub fn add(&mut self, now: u64, payload: &[u8], share: SignedShare) -> (r: Result<
        Signature,
        AggregatorError,
    >)
        ensures
            final(self).wf(),
            final(self).spec_expiration() == old(self).spec_expiration(),
            ({
                let live = old(self).spec_entries().filter(
                    |e: EntryView| entry_live(e, now, old(self).spec_expiration()),
                );
                let (entries, outcome) = spec_add(
                    live,
                    now,
                    payload@,
                    share.public_key_set@,
                    share.index as u64,
                    share.signature_share,
                );
                final(self).spec_entries() == entries && result_fits(
                    r,
                    outcome,
                    payload@,
                    share.public_key_set@,
                )
            }),
    {
        proof {
            use_type_invariant(&*self);
            use_type_invariant(&share.public_key_set);
        }
        let mut entries: Vec<Entry> = Vec::new();
        core::mem::swap(&mut self.entries, &mut entries);
        drop_expired(&mut entries, now, self.expiration);
        let ghost live = views(entries@);
        let index: u64 = share.index as u64;
        let share_is_valid = share.verify(payload);
        if !share_is_valid {
            self.entries = entries;
            return Err(AggregatorError::FaultyShare);
        }
        let found = find_entry(&entries, payload, &share.public_key_set);
        let mut entry = match found {
            Some(i) => entries.remove(i),
            None => Entry {
                payload: copy_bytes(payload),
                key_set: share.public_key_set.clone(),
                shares: Vec::new(),
                modified: now,
                aggregated: false,
            },
        };
        let ghost rest = views(entries@);
        let ghost e = entry@;
        let at: usize = match found {
            Some(i) => i,
            None => entries.len(),
        };
        proof {
            if found is Some {
                assert(rest =~= live.remove(at as int));
                assert(e == live[at as int]);
            } else {
                assert(rest == live);
            }
            assert(entry_wf(e));
            assert(e.payload == payload@ && e.key_set == share.public_key_set@);
        }
        let step = add_step(
            share_is_valid,
            entry.aggregated,
            find_index(&entry.shares, index),
            entry.shares.len(),
            entry.key_set.threshold(),
        );
        let ghost shares = e.shares.push((index, share.signature_share));
        proof {
            if step == AddStep::Waiting || step == AddStep::Combine {
                assert(distinct_indices(shares)) by {
                    assert forall|a: int, b: int| 0 <= a < b < shares.len() implies (#[trigger] shares[a]).0
                        != (#[trigger] shares[b]).0 by {
                        if b == shares.len() - 1 {
                            assert(e.shares[a].0 != index);
                        } else {
                            assert(e.shares[a].0 != e.shares[b].0);
                        }
                    }
                }
                assert forall|i: int| 0 <= i < shares.len() implies share_valid(
                    e.key_set,
                    (#[trigger] shares[i]).0,
                    shares[i].1.bytes@,
                    e.payload,
                ) by {
                    if i < shares.len() - 1 {
                        assert(shares[i] == e.shares[i]);
                    }
                }
                assert(shares_valid(e.key_set, shares, e.payload));
            }
        }
        let result = match step {
            AddStep::Faulty => Err(AggregatorError::FaultyShare),
            AddStep::Already => Err(AggregatorError::AlreadyAggregated),
            AddStep::Duplicate => Err(AggregatorError::NotEnoughShares),
            AddStep::Waiting => {
                entry.shares.push((index, share.signature_share));
                entry.modified = now;
                Err(AggregatorError::NotEnoughShares)
            },
            AddStep::Combine => {
                entry.shares.push((index, share.signature_share));
                let combined = combine_shares(&entry.key_set, &entry.shares);
                let key = entry.key_set.public_key();
                let verified = match combined {
                    Some(sig) => if verify_signature(&key, &sig, payload) {
                        Some(sig)
                    } else {
                        None
                    },
                    None => None,
                };
                match verified {
                    Some(sig) => {
                        entry.shares = Vec::new();
                        entry.modified = now;
                        entry.aggregated = true;
                        Ok(sig)
                    },
                    None => {
                        let _ = entry.shares.pop();
                        assert(entry.shares@ =~= e.shares);
                        if found.is_none() {
                            self.entries = entries;
                            return Err(AggregatorError::FaultyShare);
                        }
                        Err(AggregatorError::FaultyShare)
                    },
                }
            },
        };
        let ghost updated = entry@;
        entries.insert(at, entry);
        proof {
            if step == AddStep::Waiting || (step == AddStep::Combine && result is Ok) {
                lemma_put_back(live, rest, updated, at as int, found is Some);
            } else {
                assert(updated == e);
                lemma_put_back(live, rest, e, at as int, found is Some);
            }
            assert(views(entries@) =~= rest.insert(at as int, updated));
        }
        self.entries = entries;
        result
    }
}

/// Putting an entry back where it was taken from, or at the end where it is new, gives the
/// entries that `put_entry` describes, well formed if the entry is.
proof fn lemma_put_back(live: Seq<EntryView>, rest: Seq<EntryView>, e: EntryView, at: int, found: bool)
    requires
        entries_wf(live),
        entry_wf(e),
        found == has_entry(live, e.payload, e.key_set),
        found ==> 0 <= at < live.len() && at == index_of_entry(live, e.payload, e.key_set) && rest
            == live.remove(at),
        !found ==> at == live.len() && rest == live,
    ensures
        rest.insert(at, e) == put_entry(live, e),
        entries_wf(put_entry(live, e)),
{
    let after = rest.insert(at, e);
    if found {
        assert(after =~= live.update(at, e));
        assert(live[at].payload == e.payload && live[at].key_set == e.key_set);
    } else {
        assert(after =~= live.push(e));
    }
    assert forall|i: int| 0 <= i < after.len() implies entry_wf(#[trigger] after[i]) by {
        if i != at {
            assert(after[i] == live[i]);
        }
    }
    assert forall|i: int, j: int|
        0 <= i < after.len() && 0 <= j < after.len() && i != j implies !((#[trigger] after[i]).payload
        == (#[trigger] after[j]).payload && after[i].key_set == after[j].key_set) by {
        if i != at && j != at {
            assert(after[i] == live[i] && after[j] == live[j]);
        } else if found {
            let other = if i == at { j } else { i };
            assert(after[other] == live[other]);
            assert(!(live[other].payload == live[at].payload && live[other].key_set
                == live[at].key_set));
        } else {
            let other = if i == at { j } else { i };
            assert(after[other] == live[other]);
        }
    }
}

} // verus!
