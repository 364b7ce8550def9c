//! The vote counting of one generation, which `sn_membership` does.
//!
//! This file says what the library relies on of a consensus and of the signed votes that go
//! in and out of it.

use vstd::prelude::*;
use crate::bls::bls_share_zero;
use crate::name::Name;
use crate::node_state::{MembershipState, NodeState};
use crate::sap::{Addr, Ip};

verus! {

/// A member's state in the form in which it is voted on: the name, the address (the octets
/// by family, and the port), the state (nothing for joined, an empty choice for left, the
/// destination for relocated), and the previous name.
pub type Item = (
    [u8; 32],
    (Result<[u8; 4], [u8; 16]>, u16),
    Option<Option<[u8; 32]>>,
    Option<[u8; 32]>,
);

/// The votes of one generation: `sn_membership::consensus::Consensus`.
#[derive(Debug)]
#[verifier::external_body]
pub struct Consensus {
    inner: sn_membership::consensus::Consensus<Item>,
}

/// A vote with its voter's signature: `sn_membership::vote::SignedVote`. The vote itself
/// is open to the code that receives votes, which reads them from what was sent.
#[derive(Debug)]
#[verifier::external_body]
pub struct SignedVote {
    pub inner: sn_membership::vote::SignedVote<Item>,
}

/// `sn_membership::Error`, as the verifier is to see it: a value of which nothing is known.
#[verifier::external_type_specification]
#[verifier::external_body]
pub struct ExConsensusError(sn_membership::Error);

/// Whether the generation has come to a decision: whether `Consensus::decision` holds one.
pub uninterp spec fn consensus_decided(consensus: Consensus) -> bool;

/// The proposals that the generation's decision adopts, in the order in which
/// `Consensus::decision` holds them; none while there is no decision.
pub uninterp spec fn consensus_proposals(consensus: Consensus) -> Seq<Item>;

/// The votes that the generation has taken in so far, one for each voter, in the order in
/// which `Consensus::votes` holds them.
pub uninterp spec fn consensus_votes(consensus: Consensus) -> Seq<SignedVote>;

/// Whether `Consensus::detect_byzantine_voters` finds the vote, or a vote within it, at odds
/// with what its voter has voted before.
pub uninterp spec fn vote_faulty(consensus: Consensus, vote: SignedVote) -> bool;

/// The consensus that `Consensus::from` sets up for an elder with its number and its share
/// of the secret key, the elders' key set as `blsttc::PublicKeySet::from_bytes` reads it from
/// the bytes, and the number of elders; `None` where the bytes cannot be read.
pub uninterp spec fn consensus_set_up(
    id: u8,
    key: blsttc::SecretKeyShare,
    elders: Seq<u8>,
    n_elders: usize,
) -> Option<Consensus>;

/// What `Consensus::handle_signed_vote` makes of a consensus and a vote: the consensus
/// afterwards; and what it answers, which is the vote to broadcast if there is one, or
/// `None` where it fails.
pub uninterp spec fn consensus_handled(consensus: Consensus, vote: SignedVote) -> (
    Consensus,
    Option<Option<SignedVote>>,
);

/// The consensus that `Consensus::from` sets up for the elder, the key set and the number of
/// elders of another.
pub uninterp spec fn consensus_renewed(consensus: Consensus) -> Consensus;

/// The vote that `Consensus::sign_vote` makes of a proposal of the item for the generation,
/// with the faults that the consensus holds; `None` where it fails.
pub uninterp spec fn consensus_signed(consensus: Consensus, gen: u64, item: Item) -> Option<
    SignedVote,
>;

/// The vote that `Consensus::build_super_majority_vote` makes for the generation of the
/// votes and the faults of the decision of a consensus; `None` where it fails.
pub uninterp spec fn consensus_rebuilt(consensus: Consensus, gen: u64) -> Option<SignedVote>;

/// Whether the share of the secret key that the consensus signs with, `Consensus::secret_key`,
/// is the zero share, with which nothing can be signed.
pub uninterp spec fn consensus_key_zero(consensus: Consensus) -> bool;

/// The number by which the elder that holds the consensus is known among the voters, as
/// `Consensus::id` gives it.
pub uninterp spec fn consensus_id(consensus: Consensus) -> u8;

/// The number of elders that the consensus was set up for: `Consensus::n_elders`.
pub uninterp spec fn consensus_elders(consensus: Consensus) -> usize;

/// The voters of the votes that `Consensus::votes` holds, and of the votes merged into
/// those, as `SignedVote::unpack_votes` finds them.
pub uninterp spec fn consensus_voters(consensus: Consensus) -> Seq<u8>;

/// The voters of whom the consensus holds a fault, as `Consensus::faulty_ids` lists them.
pub uninterp spec fn consensus_faulty(consensus: Consensus) -> Seq<u8>;

/// The voter of a signed vote and the voters of the votes merged into it, as
/// `SignedVote::unpack_votes` finds them.
pub uninterp spec fn vote_voters(vote: SignedVote) -> Seq<u8>;

/// The bytes that `bincode::serialize` makes of a signed vote; `None` where it fails.
pub uninterp spec fn vote_bytes(vote: SignedVote) -> Option<Seq<u8>>;

/// The generation that a signed vote is for: the `gen` of `SignedVote::vote`.
pub uninterp spec fn vote_gen(vote: SignedVote) -> u64;

/// The states that a signed vote proposes, in the order in which `SignedVote::proposals`
/// holds them.
pub uninterp spec fn vote_proposals(vote: SignedVote) -> Seq<Item>;

/// A member's state in the form in which it is voted on.
pub open spec fn spec_item(state: NodeState) -> Item {
    (
        state.name.bytes,
        (
            match state.addr.ip {
                Ip::V4(octets) => Ok(octets),
                Ip::V6(octets) => Err(octets),
            },
            state.addr.port,
        ),
        match state.state {
            MembershipState::Joined => None,
            MembershipState::Left => Some(None),
            MembershipState::Relocated(dst) => Some(Some(dst.bytes)),
        },
        match state.previous_name {
            Some(name) => Some(name.bytes),
            None => None,
        },
    )
}

/// The member's state that an item stands for.
pub open spec fn spec_state(item: Item) -> NodeState {
    NodeState {
        name: Name { bytes: item.0 },
        addr: Addr {
            ip: match item.1.0 {
                Ok(octets) => Ip::V4(octets),
                Err(octets) => Ip::V6(octets),
            },
            port: item.1.1,
        },
        state: match item.2 {
            None => MembershipState::Joined,
            Some(None) => MembershipState::Left,
            Some(Some(dst)) => MembershipState::Relocated(Name { bytes: dst }),
        },
        previous_name: match item.3 {
            Some(name) => Some(Name { bytes: name }),
            None => None,
        },
    }
}

/// The states that items stand for.
pub open spec fn spec_states(items: Seq<Item>) -> Seq<NodeState> {
    items.map_values(|item: Item| spec_state(item))
}

/// Items and states stand for each other, one for one.
pub proof fn lemma_item_state(state: NodeState, item: Item)
    ensures
        spec_state(spec_item(state)) == state,
        spec_item(spec_state(item)) == item,
{
}

/// A member's state in the form in which it is voted on.
pub fn to_item(state: &NodeState) -> (item: Item)
    ensures
        item == spec_item(*state),
{
    (
        state.name.bytes,
        (
            match state.addr.ip {
                Ip::V4(octets) => Ok(octets),
                Ip::V6(octets) => Err(octets),
            },
            state.addr.port,
        ),
        match state.state {
            MembershipState::Joined => None,
            MembershipState::Left => Some(None),
            MembershipState::Relocated(dst) => Some(Some(dst.bytes)),
        },
        match state.previous_name {
            Some(name) => Some(name.bytes),
            None => None,
        },
    )
}

/// The member's state that an item stands for.
pub fn from_item(item: &Item) -> (state: NodeState)
    ensures
        state == spec_state(*item),
{
    NodeState {
        name: Name { bytes: item.0 },
        addr: Addr {
            ip: match item.1.0 {
                Ok(octets) => Ip::V4(octets),
                Err(octets) => Ip::V6(octets),
            },
            port: item.1.1,
        },
        state: match item.2 {
            None => MembershipState::Joined,
            Some(None) => MembershipState::Left,
            Some(Some(dst)) => MembershipState::Relocated(Name { bytes: dst }),
        },
        previous_name: match item.3 {
            Some(name) => Some(Name { bytes: name }),
            None => None,
        },
    }
}

/// The states that the items stand for.
pub fn from_items(items: &Vec<Item>) -> (states: Vec<NodeState>)
    ensures
        states@ == spec_states(items@),
{
    let mut states: Vec<NodeState> = Vec::new();
    let mut i: usize = 0;
    while i < items.len()
        invariant
            i <= items.len(),
            states@ == spec_states(items@.take(i as int)),
        decreases items.len() - i,
    {
        states.push(from_item(&items[i]));
        proof {
            assert(items@.take(i + 1) == items@.take(i as int).push(items@[i as int]));
            assert(spec_states(items@.take(i + 1)) =~= spec_states(items@.take(i as int)).push(
                spec_state(items@[i as int]),
            ));
        }
        i += 1;
    }
    assert(items@.take(items.len() as int) == items@);
    states
}

/// Whether the voter with the number is one that the consensus would count once it has taken
/// the vote in: a voter that it holds a vote or a fault of, a voter of the vote or of a vote
/// merged into it, or the elder that holds the consensus.
pub open spec fn spec_counts_voter(consensus: Consensus, vote: SignedVote, id: u8) -> bool {
    ||| consensus_voters(consensus).contains(id)
    ||| consensus_faulty(consensus).contains(id)
    ||| vote_voters(vote).contains(id)
    ||| id == consensus_id(consensus)
}

/// How many of the voters with a number below `upto` the consensus would count once it has
/// taken the vote in.
pub open spec fn spec_voter_count(consensus: Consensus, vote: SignedVote, upto: int) -> int
    decreases upto,
{
    if upto <= 0 {
        0
    } else {
        spec_voter_count(consensus, vote, upto - 1) + (if spec_counts_voter(
            consensus,
            vote,
            (upto - 1) as u8,
        ) {
            1int
        } else {
            0int
        })
    }
}

/// Whether the consensus can take the vote in without counting more voters than it has
/// elders.
pub open spec fn spec_voters_fit(consensus: Consensus, vote: SignedVote) -> bool {
    spec_voter_count(consensus, vote, 256) <= consensus_elders(consensus)
}

/// Sets the flag of each of the voters.
fn mark_voters(flags: &mut Vec<bool>, ids: &Vec<u8>)
    requires
        old(flags)@.len() == 256,
    ensures
        final(flags)@.len() == 256,
        forall|id: u8| #[trigger]
            final(flags)@[id as int] == (old(flags)@[id as int] || ids@.contains(id)),
{
    let mut i: usize = 0;
    while i < ids.len()
        invariant
            i <= ids.len(),
            flags@.len() == 256,
            forall|id: u8| #[trigger]
                flags@[id as int] == (old(flags)@[id as int] || ids@.take(i as int).contains(id)),
        decreases ids.len() - i,
    {
        let ghost before = flags@;
        let id = ids[i];
        flags.set(id as usize, true);
        proof {
            let shorter = ids@.take(i as int);
            let longer = ids@.take(i + 1);
            assert(longer == shorter.push(id));
            assert forall|other: u8| #[trigger]
                flags@[other as int] == (old(flags)@[other as int] || longer.contains(other)) by {
                assert(before[other as int] == (old(flags)@[other as int] || shorter.contains(
                    other,
                )));
                if other == id {
                    assert(longer[i as int] == id);
                } else if longer.contains(other) {
                    let k = choose|k: int| 0 <= k < longer.len() && longer[k] == other;
                    assert(shorter[k] == other);
                } else if shorter.contains(other) {
                    let k = choose|k: int| 0 <= k < shorter.len() && shorter[k] == other;
                    assert(longer[k] == other);
                }
            }
        }
        i += 1;
    }
    proof {
        assert(ids@.take(ids.len() as int) == ids@);
    }
}

/// Whether the consensus can take the vote in without counting more voters than it has
/// elders.
pub fn voters_fit(consensus: &Consensus, vote: &SignedVote) -> (r: bool)
    ensures
        r == spec_voters_fit(*consensus, *vote),
{
    let mut flags: Vec<bool> = Vec::new();
    let mut n: usize = 0;
    while n < 256
        invariant
            n <= 256,
            flags@.len() == n,
            forall|k: int| 0 <= k < n ==> !flags@[k],
        decreases 256 - n,
    {
        flags.push(false);
        n += 1;
    }
    mark_voters(&mut flags, &consensus_voter_ids(consensus));
    mark_voters(&mut flags, &consensus_faulty_ids(consensus));
    mark_voters(&mut flags, &vote_voter_ids(vote));
    let mut own: Vec<u8> = Vec::new();
    own.push(consensus_node_id(consensus));
    mark_voters(&mut flags, &own);
    proof {
        assert forall|id: u8| #[trigger]
            flags@[id as int] == spec_counts_voter(*consensus, *vote, id) by {
            if id == consensus_id(*consensus) {
                assert(own@[0] == id);
            }
        }
    }
    let mut count: usize = 0;
    let mut i: usize = 0;
    while i < 256
        invariant
            i <= 256,
            flags@.len() == 256,
            forall|id: u8| #[trigger]
                flags@[id as int] == spec_counts_voter(*consensus, *vote, id),
            count == spec_voter_count(*consensus, *vote, i as int),
            count <= i,
        decreases 256 - i,
    {
        proof {
            assert(flags@[(i as u8) as int] == spec_counts_voter(*consensus, *vote, i as u8));
        }
        if flags[i] {
            count += 1;
        }
        i += 1;
    }
    count <= consensus_elder_count(consensus)
}

/// Calls `Consensus::from`, after `blsttc::PublicKeySet::from_bytes`; nothing comes of bytes
/// that are no key set. A new consensus has no decision and no votes. Bytes too few for one
/// key are left out: the threshold of the set they are read as underflows.
#[verifier::external_body]
pub(crate) fn consensus_new(id: u8, key: blsttc::SecretKeyShare, elders: &[u8], n_elders: usize) -> (r:
    Option<Consensus>)
    requires
        elders@.len() >= 48,
    ensures
        r == consensus_set_up(id, key, elders@, n_elders),
        r matches Some(consensus) ==> !consensus_decided(consensus) && consensus_proposals(
            consensus,
        ).len() == 0 && consensus_votes(consensus).len() == 0,
        r matches Some(consensus) ==> consensus_id(consensus) == id && consensus_elders(consensus)
            == n_elders && consensus_key_zero(consensus) == bls_share_zero(key),
{
    let elders = blsttc::PublicKeySet::from_bytes(elders.to_vec()).ok()?;
    Some(Consensus { inner: sn_membership::consensus::Consensus::from((id, key), elders, n_elders) })
}

/// Calls `Consensus::from` with the key, the elders and their number of another consensus.
/// A new consensus has no decision and no votes.
#[verifier::external_body]
pub(crate) fn consensus_fresh(consensus: &Consensus) -> (fresh: Consensus)
    ensures
        fresh == consensus_renewed(*consensus),
        consensus_key_zero(fresh) == consensus_key_zero(*consensus),
        !consensus_decided(fresh),
        consensus_proposals(fresh).len() == 0,
        consensus_votes(fresh).len() == 0,
{
    let from = &consensus.inner;
    Consensus {
        inner: sn_membership::consensus::Consensus::from(
            from.secret_key.clone(),
            from.elders.clone(),
            from.n_elders,
        ),
    }
}

/// Calls `Consensus::id`.
#[verifier::external_body]
pub(crate) fn consensus_node_id(consensus: &Consensus) -> (id: u8)
    ensures
        id == consensus_id(*consensus),
{
    consensus.inner.id()
}

/// Reads `Consensus::n_elders`.
#[verifier::external_body]
pub(crate) fn consensus_elder_count(consensus: &Consensus) -> (n: usize)
    ensures
        n == consensus_elders(*consensus),
{
    consensus.inner.n_elders
}

/// Reads `Consensus::votes` and hands out, for each vote, its voter and the voters that
/// `SignedVote::unpack_votes` finds merged into it.
#[verifier::external_body]
pub(crate) fn consensus_voter_ids(consensus: &Consensus) -> (ids: Vec<u8>)
    ensures
        ids@ == consensus_voters(*consensus),
{
    let votes = consensus.inner.votes.values();
    votes.flat_map(|vote| vote.unpack_votes()).map(|vote| vote.voter).collect()
}

/// Calls `Consensus::faulty_ids`.
#[verifier::external_body]
pub(crate) fn consensus_faulty_ids(consensus: &Consensus) -> (ids: Vec<u8>)
    ensures
        ids@ == consensus_faulty(*consensus),
{
    consensus.inner.faulty_ids().into_iter().collect()
}

/// Reads `Consensus::decision` and says whether there is one.
#[verifier::external_body]
pub(crate) fn consensus_is_decided(consensus: &Consensus) -> (decided: bool)
    ensures
        decided == consensus_decided(*consensus),
{
    consensus.inner.decision.is_some()
}

/// Reads `Consensus::decision` and hands out the proposals it adopts, in the order of the
/// map that holds them.
#[verifier::external_body]
pub(crate) fn consensus_decision_proposals(consensus: &Consensus) -> (proposals: Vec<Item>)
    ensures
        proposals@ == consensus_proposals(*consensus),
{
    match &consensus.inner.decision {
        Some(decision) => decision.proposals.keys().cloned().collect(),
        None => Vec::new(),
    }
}

/// Reads `Consensus::votes` and hands out the votes, in the order of their voters.
#[verifier::external_body]
pub(crate) fn consensus_current_votes(consensus: &Consensus) -> (votes: Vec<SignedVote>)
    ensures
        votes@ == consensus_votes(*consensus),
{
    consensus.inner.votes.values().map(|vote| SignedVote { inner: vote.clone() }).collect()
}

/// Calls `Consensus::sign_vote` on a vote that proposes the item for the generation and
/// names the faults that `Consensus::faults` lists. The signed vote is for that generation
/// and proposes that item and nothing else. A consensus with the zero key share is left out:
/// signing with it panics.
#[verifier::external_body]
pub(crate) fn consensus_sign_proposal(consensus: &Consensus, gen: u64, item: Item) -> (r: Result<
    SignedVote,
    sn_membership::Error,
>)
    requires
        !consensus_key_zero(*consensus),
    ensures
        match r {
            Ok(vote) => consensus_signed(*consensus, gen, item) == Some(vote),
            Err(_) => consensus_signed(*consensus, gen, item) is None,
        },
        r matches Ok(vote) ==> vote_gen(vote) == gen && vote_proposals(vote) == seq![item],
{
    let vote = sn_membership::vote::Vote {
        gen,
        ballot: sn_membership::vote::Ballot::Propose(item),
        faults: consensus.inner.faults(),
    };
    Ok(SignedVote { inner: consensus.inner.sign_vote(vote)? })
}

/// Calls `Consensus::detect_byzantine_voters` and says whether it found a fault.
#[verifier::external_body]
pub(crate) fn consensus_detect_byzantine(consensus: &Consensus, vote: &SignedVote) -> (faulty: bool)
    ensures
        faulty == vote_faulty(*consensus, *vote),
{
    consensus.inner.detect_byzantine_voters(&vote.inner).is_err()
}

/// Calls `Consensus::cast_vote`, which hands the vote to `Consensus::handle_signed_vote` and
/// gives back the vote to broadcast, or the vote that was cast where there is none. The vote
/// that comes back is for the same generation. A consensus that has decided stays as it is.
///
/// While it counts votes the consensus subtracts the voters it has seen from the number of
/// its elders, which must not be the smaller one; a consensus that has decided counts
/// nothing. It signs the votes it makes with its key share, which must not be the zero
/// share; the share stays the one it is.
#[verifier::external_body]
pub(crate) fn consensus_cast_vote(consensus: &mut Consensus, vote: SignedVote) -> (r: Result<
    SignedVote,
    sn_membership::Error,
>)
    requires
        consensus_decided(*old(consensus)) || spec_voters_fit(*old(consensus), vote),
        !consensus_key_zero(*old(consensus)),
    ensures
        *final(consensus) == consensus_handled(*old(consensus), vote).0,
        consensus_key_zero(*final(consensus)) == consensus_key_zero(*old(consensus)),
        match r {
            Ok(cast) => match consensus_handled(*old(consensus), vote).1 {
                Some(Some(broadcast)) => cast == broadcast,
                Some(None) => cast == vote,
                None => false,
            },
            Err(_) => consensus_handled(*old(consensus), vote).1 is None,
        },
        r matches Ok(cast) ==> vote_gen(cast) == vote_gen(vote),
        consensus_decided(*old(consensus)) ==> *final(consensus) == *old(consensus),
        r is Err ==> consensus_decided(*final(consensus)) == consensus_decided(*old(consensus)),
{
    Ok(SignedVote { inner: consensus.inner.cast_vote(vote.inner)? })
}

/// Calls `Consensus::handle_signed_vote`. What it makes of the consensus and what it answers
/// are given their name. What comes back is the vote to broadcast, if there is one; it is
/// for the same generation. A consensus that has decided stays as it is and has nothing to
/// broadcast; one that fails does not come to a decision.
///
/// While it counts votes the consensus subtracts the voters it has seen from the number of
/// its elders, which must not be the smaller one; a consensus that has decided counts
/// nothing. It signs the votes it makes with its key share, which must not be the zero
/// share; the share stays the one it is.
#[verifier::external_body]
pub(crate) fn consensus_handle_signed_vote(consensus: &mut Consensus, vote: SignedVote) -> (r: Result<
    Option<SignedVote>,
    sn_membership::Error,
>)
    requires
        consensus_decided(*old(consensus)) || spec_voters_fit(*old(consensus), vote),
        !consensus_key_zero(*old(consensus)),
    ensures
        *final(consensus) == consensus_handled(*old(consensus), vote).0,
        consensus_key_zero(*final(consensus)) == consensus_key_zero(*old(consensus)),
        match r {
            Ok(answer) => consensus_handled(*old(consensus), vote).1 == Some(answer),
            Err(_) => consensus_handled(*old(consensus), vote).1 is None,
        },
        r matches Ok(Some(broadcast)) ==> vote_gen(broadcast) == vote_gen(vote),
        consensus_decided(*old(consensus)) ==> *final(consensus) == *old(consensus) && r matches Ok(
            None,
        ),
        r is Err ==> consensus_decided(*final(consensus)) == consensus_decided(*old(consensus)),
{
    match consensus.inner.handle_signed_vote(vote.inner)? {
        sn_membership::consensus::VoteResponse::WaitingForMoreVotes => Ok(None),
        sn_membership::consensus::VoteResponse::Broadcast(vote) => Ok(
            Some(SignedVote { inner: vote }),
        ),
    }
}

/// Calls `Consensus::build_super_majority_vote` on the votes and the faults of the decision,
/// for the given generation. The vote it builds is for that generation. The consensus must
/// have decided, and its key share, with which it signs, must not be the zero share.
#[verifier::external_body]
pub(crate) fn consensus_rebuild_vote(consensus: &Consensus, gen: u64) -> (r: Result<
    SignedVote,
    sn_membership::Error,
>)
    requires
        consensus_decided(*consensus),
        !consensus_key_zero(*consensus),
    ensures
        match r {
            Ok(vote) => consensus_rebuilt(*consensus, gen) == Some(vote),
            Err(_) => consensus_rebuilt(*consensus, gen) is None,
        },
        r matches Ok(vote) ==> vote_gen(vote) == gen,
{
    let decision = consensus.inner.decision.clone().expect("a decision");
    let vote = consensus.inner.build_super_majority_vote(decision.votes, decision.faults, gen)?;
    Ok(SignedVote { inner: vote })
}

/// Reads `SignedVote::vote` and hands out its generation.
#[verifier::external_body]
pub(crate) fn vote_generation(vote: &SignedVote) -> (gen: u64)
    ensures
        gen == vote_gen(*vote),
{
    vote.inner.vote.gen
}

/// Calls `SignedVote::unpack_votes` and hands out the voter of each vote it finds: the
/// vote's own and those of the votes merged into it.
#[verifier::external_body]
pub(crate) fn vote_voter_ids(vote: &SignedVote) -> (ids: Vec<u8>)
    ensures
        ids@ == vote_voters(*vote),
{
    vote.inner.unpack_votes().map(|vote| vote.voter).collect()
}

/// Calls `SignedVote::proposals` and hands out the items, in the order of the set that
/// holds them.
#[verifier::external_body]
pub(crate) fn vote_proposal_list(vote: &SignedVote) -> (proposals: Vec<Item>)
    ensures
        proposals@ == vote_proposals(*vote),
{
    vote.inner.proposals().into_iter().collect()
}

/// Calls `Clone::clone` on a signed vote.
#[verifier::external_body]
pub(crate) fn vote_clone(vote: &SignedVote) -> (copy: SignedVote)
    ensures
        copy == *vote,
{
    SignedVote { inner: vote.inner.clone() }
}

/// Calls `bincode::serialize` on a signed vote. The bytes are given their name; nothing more
/// is claimed of them.
#[verifier::external_body]
pub(crate) fn vote_to_bytes(vote: &SignedVote) -> (bytes: Option<Vec<u8>>)
    ensures
        match bytes {
            Some(bytes) => vote_bytes(*vote) == Some(bytes@),
            None => vote_bytes(*vote) is None,
        },
{
    bincode::serialize(&vote.inner).ok()
}

impl SignedVote {
    /// The generation that the vote is for.
    pub fn gen(&self) -> (gen: u64)
        ensures
            gen == vote_gen(*self),
    {
        vote_generation(self)
    }

    /// The states that the vote proposes.
    pub fn proposals(&self) -> (states: Vec<NodeState>)
        ensures
            states@ == spec_states(vote_proposals(*self)),
    {
        from_items(&vote_proposal_list(self))
    }

    /// A copy of the vote.
    pub fn duplicate(&self) -> (copy: SignedVote)
        ensures
            copy == *self,
    {
        vote_clone(self)
    }

    /// The vote as bytes, to be sent to the other elders.
    pub fn encode(&self) -> (bytes: Option<Vec<u8>>)
        ensures
            match bytes {
                Some(bytes) => vote_bytes(*self) == Some(bytes@),
                None => vote_bytes(*self) is None,
            },
    {
        vote_to_bytes(self)
    }
}

} // verus!
