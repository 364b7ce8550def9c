//! Who is a member of the section, generation by generation.
//!
//! The elders vote on each change to the membership. A generation ends when its consensus
//! comes to a decision; the changes it adopts make the members of the next generation.

use vstd::prelude::*;
use crate::bls::{bls_share_zero, share_is_zero, PublicKeySet};
use crate::consensus::{
    consensus_cast_vote, consensus_current_votes, consensus_decided, consensus_decision_proposals,
    consensus_detect_byzantine, consensus_fresh, consensus_handle_signed_vote, consensus_handled,
    consensus_id, consensus_is_decided, consensus_key_zero, consensus_new, consensus_node_id, consensus_proposals,
    consensus_rebuild_vote, consensus_rebuilt, consensus_renewed, consensus_set_up,
    consensus_sign_proposal, consensus_signed, consensus_votes, from_items, spec_item,
    spec_states, spec_voters_fit, to_item, vote_faulty, vote_gen, vote_proposals, voters_fit,
    Consensus, SignedVote,
};
use crate::name::Name;
use crate::name_map::NameMap;
use crate::node_state::{MembershipState, NodeState};

verus! {

/// The number of members above which nobody is let in.
pub const SOFT_MAX_MEMBERS: usize = 21;

/// The number of a generation. Generation 0 is the one of the members that the section
/// started with.
pub type Generation = u64;

/// The number by which an elder is known among the voters.
pub type NodeId = u8;

/// Why the membership refused something.
#[derive(Debug)]
pub enum MembershipError {
    /// There is no consensus for the generation: it is neither a past one nor the next.
    BadGeneration { requested_gen: Generation, gen: Generation },
    /// The generation has not been decided yet.
    InvalidGeneration(Generation),
    /// The peer that wants to join is a member already.
    JoinRequestForExistingMember,
    /// The section has as many members as it takes.
    MembersAtCapacity,
    /// The peer that is to leave or to be moved is no member that has joined.
    LeaveRequestForNonMember,
    /// The proposal is at odds with what this elder has voted before.
    AttemptedFaultyProposal,
    /// The bytes given for the elders' key set are no key set.
    InvalidKeySet,
    /// The share of the secret key is the zero share, with which nothing can be signed.
    InvalidKeyShare,
    /// With the vote there would be votes of more voters than the section has elders.
    TooManyVoters,
    /// The consensus refused a vote.
    Consensus(sn_membership::Error),
}

/// What is to be done once a vote has been taken in.
#[derive(Debug)]
pub enum VoteResponse {
    /// Nothing: more votes are needed.
    WaitingForMoreVotes,
    /// Send this vote to the other elders.
    Broadcast(SignedVote),
    /// The generation is decided: these changes to the membership are adopted. The vote, if
    /// there is one, is to be sent to the other elders.
    Decided { proposals: Vec<NodeState>, broadcast: Option<SignedVote> },
}

/// The membership of a section as one elder sees it: the members it started with, the
/// decided generations, and the consensus of the generation that is being voted on.
#[derive(Debug)]
pub struct Membership {
    consensus: Consensus,
    bootstrap_members: NameMap<NodeState>,
    gen: Generation,
    history: Vec<Consensus>,
}

/// The members once the proposals have been adopted, one after the other: each state takes
/// the place of the state under its name.
pub open spec fn spec_apply(members: Map<Name, NodeState>, proposals: Seq<NodeState>) -> Map<
    Name,
    NodeState,
>
    decreases proposals.len(),
{
    if proposals.len() == 0 {
        members
    } else {
        spec_apply(members, proposals.drop_last()).insert(proposals.last().name, proposals.last())
    }
}

/// The members at a generation: those that the section started with, and the changes that
/// the generations up to this one adopted. `decisions` holds what each generation adopted.
pub open spec fn spec_members_at(
    bootstrap: Map<Name, NodeState>,
    decisions: Seq<Seq<NodeState>>,
    gen: nat,
) -> Map<Name, NodeState>
    decreases gen,
{
    if gen == 0 {
        bootstrap
    } else {
        spec_apply(spec_members_at(bootstrap, decisions, (gen - 1) as nat), decisions[gen - 1])
    }
}

/// Whether a change to the membership is in order, given the members so far. A peer joins
/// only if it is no member and there is room; a peer leaves or is moved only if it is a
/// member that has joined.
pub open spec fn spec_validate(members: Map<Name, NodeState>, state: NodeState) -> Result<
    (),
    MembershipError,
> {
    if state.state == MembershipState::Joined {
        if members.contains_key(state.name) {
            Err(MembershipError::JoinRequestForExistingMember)
        } else if members.len() >= SOFT_MAX_MEMBERS {
            Err(MembershipError::MembersAtCapacity)
        } else {
            Ok(())
        }
    } else if members.contains_key(state.name) && members[state.name].state
        == MembershipState::Joined {
        Ok(())
    } else {
        Err(MembershipError::LeaveRequestForNonMember)
    }
}

/// The first error among the changes, each held against the same members; none where all
/// are in order.
pub open spec fn spec_validate_all(members: Map<Name, NodeState>, proposals: Seq<NodeState>) -> Result<
    (),
    MembershipError,
>
    decreases proposals.len(),
{
    if proposals.len() == 0 {
        Ok(())
    } else {
        match spec_validate_all(members, proposals.drop_last()) {
            Ok(()) => spec_validate(members, proposals.last()),
            Err(e) => Err(e),
        }
    }
}

/// Whether a change to the membership is in order, given the members so far.
pub fn validate_change(members: &NameMap<NodeState>, node_state: &NodeState) -> (r: Result<
    (),
    MembershipError,
>)
    requires
        members.wf(),
    ensures
        r == spec_validate(members@, *node_state),
{
    proof {
        members.lemma_len();
    }
    match node_state.state {
        MembershipState::Joined => {
            if members.contains(&node_state.name) {
                Err(MembershipError::JoinRequestForExistingMember)
            } else if members.len() >= SOFT_MAX_MEMBERS {
                Err(MembershipError::MembersAtCapacity)
            } else {
                Ok(())
            }
        },
        _ => {
            match members.get(&node_state.name) {
                Some(previous) => {
                    if previous.state.is_joined() {
                        Ok(())
                    } else {
                        Err(MembershipError::LeaveRequestForNonMember)
                    }
                },
                None => Err(MembershipError::LeaveRequestForNonMember),
            }
        },
    }
}

impl Membership {
    /// The number of the last generation that was decided.
    pub closed spec fn spec_gen(&self) -> Generation {
        self.gen
    }

    /// The members that the section started with.
    pub closed spec fn spec_bootstrap(&self) -> Map<Name, NodeState> {
        self.bootstrap_members@
    }

    /// The consensus of each decided generation, the first generation first.
    pub closed spec fn spec_history(&self) -> Seq<Consensus> {
        self.history@
    }

    /// The consensus of the generation that is being voted on.
    pub closed spec fn spec_consensus(&self) -> Consensus {
        self.consensus
    }

    /// What each decided generation adopted.
    pub open spec fn spec_decisions(&self) -> Seq<Seq<NodeState>> {
        self.spec_history().map_values(|c: Consensus| spec_states(consensus_proposals(c)))
    }

    /// The members at a generation that was decided.
    pub open spec fn spec_members(&self, gen: Generation) -> Map<Name, NodeState> {
        spec_members_at(self.spec_bootstrap(), self.spec_decisions(), gen as nat)
    }

    /// There is one consensus in the history for each generation from the first to the last
    /// decided one, each of them with a decision; and no consensus signs with the zero key
    /// share. Every value of the type that the program holds is of this form.
    #[verifier::type_invariant]
    pub closed spec fn wf(&self) -> bool {
        &&& self.history@.len() == self.gen
        &&& forall|i: int|
            0 <= i < self.history@.len() ==> consensus_decided(#[trigger] self.history@[i])
                && !consensus_key_zero(self.history@[i])
        &&& !consensus_key_zero(self.consensus)
        &&& self.bootstrap_members.wf()
    }

    /// What the invariant says, for code that holds a value of the type.
    pub proof fn lemma_wf(&self)
        requires
            self.wf(),
        ensures
            self.spec_history().len() == self.spec_gen(),
            forall|i: int|
                0 <= i < self.spec_history().len() ==> consensus_decided(
                    #[trigger] self.spec_history()[i],
                ),
    {
    }

    /// The membership of a section that starts with the given members, as the elder with the
    /// given number and share of the secret key sees it. Of several members with one name the
    /// last counts. Fails where the share is the zero share, and where the elders' key set
    /// cannot be read.
    pub fn from(
        secret_key: (NodeId, blsttc::SecretKeyShare),
        elders: &PublicKeySet,
        n_elders: usize,
        bootstrap_members: Vec<NodeState>,
    ) -> (r: Result<Membership, MembershipError>)
        ensures
            bls_share_zero(secret_key.1) ==> r matches Err(MembershipError::InvalidKeyShare),
            !bls_share_zero(secret_key.1) ==> match consensus_set_up(
                secret_key.0,
                secret_key.1,
                elders@,
                n_elders,
            ) {
                Some(consensus) => {
                    &&& r matches Ok(membership)
                    &&& membership.wf()
                    &&& membership.spec_gen() == 0
                    &&& membership.spec_history().len() == 0
                    &&& membership.spec_bootstrap() == spec_apply(Map::empty(), bootstrap_members@)
                    &&& membership.spec_consensus() == consensus
                    &&& consensus_votes(consensus).len() == 0
                },
                None => r matches Err(MembershipError::InvalidKeySet),
            },
    {
        if share_is_zero(&secret_key.1) {
            return Err(MembershipError::InvalidKeyShare);
        }
        let mut members: NameMap<NodeState> = NameMap::new();
        let mut i: usize = 0;
        while i < bootstrap_members.len()
            invariant
                i <= bootstrap_members.len(),
                members.wf(),
                members@ == spec_apply(Map::empty(), bootstrap_members@.take(i as int)),
            decreases bootstrap_members.len() - i,
        {
            proof {
                assert(bootstrap_members@.take(i + 1).drop_last() == bootstrap_members@.take(
                    i as int,
                ));
            }
            let state = bootstrap_members[i];
            let _ = members.insert(state.name, state);
            i += 1;
        }
        proof {
            assert(bootstrap_members@.take(bootstrap_members.len() as int) == bootstrap_members@);
        }
        match consensus_new(secret_key.0, secret_key.1, elders.as_bytes(), n_elders) {
            Some(consensus) => Ok(
                Membership { consensus, bootstrap_members: members, gen: 0, history: Vec::new() },
            ),
            None => Err(MembershipError::InvalidKeySet),
        }
    }

    /// The number of the last generation that was decided.
    pub fn gen(&self) -> (gen: Generation)
        ensures
            gen == self.spec_gen(),
    {
        self.gen
    }

    /// The number by which this elder is known among the voters.
    pub fn id(&self) -> (id: NodeId)
        ensures
            id == consensus_id(self.spec_consensus()),
    {
        consensus_node_id(&self.consensus)
    }

    /// The consensus of a generation: of the one being voted on, or of a decided one.
    pub fn consensus_at_gen(&self, gen: Generation) -> (r: Result<&Consensus, MembershipError>)
        ensures
            match r {
                Ok(consensus) => if gen == self.spec_gen() + 1 {
                    *consensus == self.spec_consensus()
                } else {
                    1 <= gen <= self.spec_gen() && *consensus == self.spec_history()[gen - 1]
                },
                Err(e) => {
                    &&& !(1 <= gen <= self.spec_gen() + 1)
                    &&& e matches MembershipError::BadGeneration { requested_gen, gen: last }
                    &&& requested_gen == gen
                    &&& last == self.spec_gen()
                },
            },
    {
        proof {
            use_type_invariant(self);
        }
        if self.gen < u64::MAX && gen == self.gen + 1 {
            Ok(&self.consensus)
        } else if 1 <= gen && gen <= self.gen {
            let decided: usize = self.history.len();
            assert(decided == self.gen);
            let index: usize = (gen - 1) as usize;
            assert(index as int == gen - 1);
            Ok(&self.history[index])
        } else {
            Err(MembershipError::BadGeneration { requested_gen: gen, gen: self.gen })
        }
    }

    /// The members at a generation, by name: those that the section started with, and the
    /// changes that the generations up to this one adopted. Fails for a generation that has
    /// not been decided.
    pub fn section_member_states(&self, gen: Generation) -> (r: Result<
        NameMap<NodeState>,
        MembershipError,
    >)
        ensures
            match r {
                Ok(members) => {
                    &&& gen <= self.spec_gen()
                    &&& members.wf()
                    &&& members@ == self.spec_members(gen)
                },
                Err(e) => {
                    &&& gen > self.spec_gen()
                    &&& e matches MembershipError::InvalidGeneration(g)
                    &&& g == gen
                },
            },
    {
        proof {
            use_type_invariant(self);
        }
        if gen > self.gen {
            return Err(MembershipError::InvalidGeneration(gen));
        }
        let mut members = self.bootstrap_members.duplicate();
        let decided: usize = self.history.len();
        let mut g: u64 = 0;
        while g < gen
            invariant
                g <= gen <= self.gen,
                self.history@.len() == self.gen,
                decided == self.gen,
                members.wf(),
                members@ == self.spec_members(g),
            decreases gen - g,
        {
            let proposals = from_items(&consensus_decision_proposals(&self.history[g as usize]));
            let ghost before = members@;
            let mut i: usize = 0;
            while i < proposals.len()
                invariant
                    i <= proposals.len(),
                    members.wf(),
                    members@ == spec_apply(before, proposals@.take(i as int)),
                decreases proposals.len() - i,
            {
                proof {
                    assert(proposals@.take(i + 1).drop_last() == proposals@.take(i as int));
                }
                let state = proposals[i];
                let _ = members.insert(state.name, state);
                i += 1;
            }
            proof {
                assert(proposals@.take(proposals.len() as int) == proposals@);
                assert(self.spec_decisions()[g as int] == spec_states(
                    consensus_proposals(self.history@[g as int]),
                ));
            }
            g += 1;
        }
        Ok(members)
    }

    /// Whether a change to the membership is in order at a generation: held against the
    /// members of the generation before.
    pub fn validate_node_state(&self, node_state: NodeState, gen: Generation) -> (r: Result<
        (),
        MembershipError,
    >)
        requires
            gen > 0,
        ensures
            r == self.spec_validate_at(node_state, gen),
    {
        let members = match self.section_member_states(gen - 1) {
            Ok(members) => members,
            Err(e) => {
                return Err(e);
            },
        };
        validate_change(&members, &node_state)
    }

    /// Whether a change to the membership is in order at a generation.
    pub open spec fn spec_validate_at(&self, node_state: NodeState, gen: Generation) -> Result<
        (),
        MembershipError,
    > {
        if gen - 1 > self.spec_gen() {
            Err(MembershipError::InvalidGeneration((gen - 1) as u64))
        } else {
            spec_validate(self.spec_members((gen - 1) as u64), node_state)
        }
    }

    /// Whether the changes are in order at a generation for which there is a consensus.
    pub open spec fn spec_validate_proposals(&self, gen: Generation, proposals: Seq<NodeState>) -> Result<
        (),
        MembershipError,
    > {
        if !(1 <= gen <= self.spec_gen() + 1) {
            Err(MembershipError::BadGeneration { requested_gen: gen, gen: self.spec_gen() })
        } else {
            spec_validate_all(self.spec_members((gen - 1) as u64), proposals)
        }
    }

    /// Whether the consensus of the generation that is being voted on has to refuse the
    /// vote: it has no decision yet, and with the vote it would count more voters than the
    /// section has elders.
    pub open spec fn spec_refuses(&self, vote: SignedVote) -> bool {
        !consensus_decided(self.spec_consensus()) && !spec_voters_fit(self.spec_consensus(), vote)
    }

    /// Whether the changes that a vote proposes are in order at the vote's generation. There
    /// must be a consensus for that generation.
    pub fn validate_proposals(&self, signed_vote: &SignedVote) -> (r: Result<(), MembershipError>)
        ensures
            r == self.spec_validate_proposals(
                vote_gen(*signed_vote),
                spec_states(vote_proposals(*signed_vote)),
            ),
    {
        let gen = signed_vote.gen();
        match self.consensus_at_gen(gen) {
            Ok(_) => {},
            Err(e) => {
                return Err(e);
            },
        }
        let proposals = signed_vote.proposals();
        let mut i: usize = 0;
        while i < proposals.len()
            invariant
                i <= proposals.len(),
                1 <= gen <= self.spec_gen() + 1,
                gen == vote_gen(*signed_vote),
                proposals@ == spec_states(vote_proposals(*signed_vote)),
                spec_validate_all(self.spec_members((gen - 1) as u64), proposals@.take(i as int))
                    is Ok,
            decreases proposals.len() - i,
        {
            proof {
                assert(proposals@.take(i + 1).drop_last() == proposals@.take(i as int));
                assert(proposals@.take(proposals.len() as int) == proposals@);
            }
            match self.validate_node_state(proposals[i], gen) {
                Ok(()) => {},
                Err(e) => {
                    proof {
                        lemma_first_error(
                            self.spec_members((gen - 1) as u64),
                            proposals@,
                            i as int,
                        );
                    }
                    return Err(e);
                },
            }
            i += 1;
        }
        proof {
            assert(proposals@.take(proposals.len() as int) == proposals@);
        }
        Ok(())
    }

    /// Takes the value out and leaves a membership without members and generations in its
    /// place.
    fn take(&mut self) -> (taken: Membership)
        ensures
            taken == *old(self),
            taken.wf(),
            final(self).wf(),
    {
        proof {
            use_type_invariant(&*self);
        }
        let mut other = Membership {
            consensus: consensus_fresh(&self.consensus),
            bootstrap_members: NameMap::new(),
            gen: 0,
            history: Vec::new(),
        };
        core::mem::swap(self, &mut other);
        other
    }

    /// Puts the parts of a membership back after the consensus of the generation being voted
    /// on has taken in a vote. Where that consensus has come to a decision, it goes to the
    /// history and a new one takes its place.
    fn settle(
        &mut self,
        consensus: Consensus,
        bootstrap_members: NameMap<NodeState>,
        gen: Generation,
        history: Vec<Consensus>,
    ) -> (decided: Option<Vec<NodeState>>)
        requires
            history@.len() == gen,
            forall|i: int|
                0 <= i < history@.len() ==> consensus_decided(#[trigger] history@[i])
                    && !consensus_key_zero(history@[i]),
            !consensus_key_zero(consensus),
            bootstrap_members.wf(),
            consensus_decided(consensus) ==> gen < u64::MAX,
        ensures
            final(self).wf(),
            final(self).spec_bootstrap() == bootstrap_members@,
            spec_settled(consensus, gen, history@, *final(self)),
            consensus_decided(consensus) ==> consensus_votes(final(self).spec_consensus()).len() == 0,
            match decided {
                Some(proposals) => consensus_decided(consensus) && proposals@ == spec_states(
                    consensus_proposals(consensus),
                ),
                None => !consensus_decided(consensus),
            },
    {
        if consensus_is_decided(&consensus) {
            let proposals = from_items(&consensus_decision_proposals(&consensus));
            let fresh = consensus_fresh(&consensus);
            let mut history = history;
            history.push(consensus);
            *self = Membership { consensus: fresh, bootstrap_members, gen: gen + 1, history };
            Some(proposals)
        } else {
            *self = Membership { consensus, bootstrap_members, gen, history };
            None
        }
    }

    /// Signs a vote that proposes the change for the generation.
    pub fn sign_vote(&self, gen: Generation, node_state: NodeState) -> (r: Result<
        SignedVote,
        MembershipError,
    >)
        ensures
            match r {
                Ok(vote) => {
                    &&& consensus_signed(self.spec_consensus(), gen, spec_item(node_state)) == Some(
                        vote,
                    )
                    &&& vote_gen(vote) == gen
                    &&& spec_states(vote_proposals(vote)) == seq![node_state]
                },
                Err(e) => {
                    &&& consensus_signed(self.spec_consensus(), gen, spec_item(node_state)) is None
                    &&& e is Consensus
                },
            },
    {
        proof {
            use_type_invariant(self);
        }
        match consensus_sign_proposal(&self.consensus, gen, to_item(&node_state)) {
            Ok(vote) => {
                proof {
                    crate::consensus::lemma_item_state(node_state, spec_item(node_state));
                    assert(spec_states(seq![spec_item(node_state)]) =~= seq![node_state]);
                }
                Ok(vote)
            },
            Err(e) => Err(MembershipError::Consensus(e)),
        }
    }

    /// Casts a vote in the generation that is being voted on. What comes back is the vote to
    /// send to the other elders: the one cast, or the one that the consensus made of it. No
    /// generation ends here, even where the vote brings the consensus to a decision: that
    /// is seen when the next vote for the generation is taken in. A vote with which there
    /// would be votes of more voters than the section has elders is refused.
    pub fn cast_vote(&mut self, signed_vote: SignedVote) -> (r: Result<SignedVote, MembershipError>)
        ensures
            final(self).wf(),
            final(self).spec_bootstrap() == old(self).spec_bootstrap(),
            final(self).spec_gen() == old(self).spec_gen(),
            final(self).spec_history() == old(self).spec_history(),
            spec_cast(*old(self), signed_vote, *final(self), r),
            consensus_decided(old(self).spec_consensus()) ==> final(self).spec_consensus() == old(
                self,
            ).spec_consensus(),
            r matches Ok(vote) ==> vote_gen(vote) == vote_gen(signed_vote),
    {
        proof {
            use_type_invariant(&*self);
        }
        if !consensus_is_decided(&self.consensus) && !voters_fit(&self.consensus, &signed_vote) {
            return Err(MembershipError::TooManyVoters);
        }
        let Membership { consensus, bootstrap_members, gen, history } = self.take();
        let mut consensus = consensus;
        let result = consensus_cast_vote(&mut consensus, signed_vote);
        *self = Membership { consensus, bootstrap_members, gen, history };
        match result {
            Ok(vote) => Ok(vote),
            Err(e) => Err(MembershipError::Consensus(e)),
        }
    }

    /// Proposes a change to the membership for the next generation: signs a vote for it,
    /// checks that the change is in order and that the vote is not at odds with what this
    /// elder voted before, and casts it. What comes back is the vote to send to the other
    /// elders.
    pub fn propose(&mut self, node_state: NodeState) -> (r: Result<SignedVote, MembershipError>)
        ensures
            final(self).wf(),
            final(self).spec_bootstrap() == old(self).spec_bootstrap(),
            final(self).spec_gen() == old(self).spec_gen(),
            final(self).spec_history() == old(self).spec_history(),
            spec_proposed(*old(self), node_state, *final(self), r),
            r matches Ok(vote) ==> vote_gen(vote) == old(self).spec_gen() + 1,
    {
        proof {
            use_type_invariant(&*self);
        }
        if self.gen == u64::MAX {
            return Err(MembershipError::InvalidGeneration(self.gen));
        }
        let signed_vote = match self.sign_vote(self.gen + 1, node_state) {
            Ok(vote) => vote,
            Err(e) => {
                return Err(e);
            },
        };
        proof {
            let members = self.spec_members(self.spec_gen());
            let one = seq![node_state];
            assert(one.drop_last() =~= Seq::<NodeState>::empty());
            assert(one.last() == node_state);
            assert(spec_validate_all(members, one.drop_last()) == Ok::<(), MembershipError>(()));
            assert(spec_validate_all(members, one) == spec_validate(members, node_state));
        }
        match self.validate_proposals(&signed_vote) {
            Ok(()) => {},
            Err(e) => {
                return Err(e);
            },
        }
        if consensus_detect_byzantine(&self.consensus, &signed_vote) {
            return Err(MembershipError::AttemptedFaultyProposal);
        }
        self.cast_vote(signed_vote)
    }

    /// What a lagging elder needs to catch up: for each decided generation after `from_gen`,
    /// in their order, a vote that carries the votes of its decision; then the votes of the
    /// generation that is being voted on. Fails where one of those votes cannot be made.
    pub fn anti_entropy(&self, from_gen: Generation) -> (r: Result<Vec<SignedVote>, MembershipError>)
        ensures
            match r {
                Ok(msgs) => {
                    let decided = if from_gen < self.spec_gen() {
                        self.spec_gen() - from_gen
                    } else {
                        0
                    };
                    &&& msgs@.len() == decided + consensus_votes(self.spec_consensus()).len()
                    &&& forall|i: int|
                        0 <= i < decided ==> consensus_rebuilt(
                            self.spec_history()[from_gen + i],
                            (from_gen + 1 + i) as u64,
                        ) == Some(#[trigger] msgs@[i])
                    &&& forall|i: int|
                        0 <= i < decided ==> vote_gen(#[trigger] msgs@[i]) == from_gen + 1 + i
                    &&& msgs@.skip(decided) == consensus_votes(self.spec_consensus())
                },
                Err(e) => {
                    &&& e is Consensus
                    &&& exists|g: int|
                        from_gen <= g < self.spec_gen() && consensus_rebuilt(
                            #[trigger] self.spec_history()[g],
                            (g + 1) as u64,
                        ) is None
                },
            },
    {
        proof {
            use_type_invariant(self);
        }
        let decided: usize = self.history.len();
        let mut msgs: Vec<SignedVote> = Vec::new();
        let mut g: u64 = if from_gen < self.gen {
            from_gen
        } else {
            self.gen
        };
        let ghost start = g;
        while g < self.gen
            invariant
                start <= g <= self.gen,
                start == (if from_gen < self.gen { from_gen } else { self.gen }),
                decided == self.gen,
                self.history@.len() == self.gen,
                forall|i: int|
                    0 <= i < self.history@.len() ==> consensus_decided(#[trigger] self.history@[i])
                        && !consensus_key_zero(self.history@[i]),
                msgs@.len() == g - start,
                forall|i: int|
                    0 <= i < msgs@.len() ==> consensus_rebuilt(
                        self.history@[start + i],
                        (start + 1 + i) as u64,
                    ) == Some(#[trigger] msgs@[i]),
                forall|i: int| 0 <= i < msgs@.len() ==> vote_gen(#[trigger] msgs@[i]) == start + 1 + i,
            decreases self.gen - g,
        {
            match consensus_rebuild_vote(&self.history[g as usize], g + 1) {
                Ok(vote) => {
                    msgs.push(vote);
                },
                Err(e) => {
                    proof {
                        assert(consensus_rebuilt(self.spec_history()[g as int], (g + 1) as u64)
                            is None);
                    }
                    return Err(MembershipError::Consensus(e));
                },
            }
            g += 1;
        }
        let ghost rebuilt = msgs@;
        let mut current = consensus_current_votes(&self.consensus);
        msgs.append(&mut current);
        proof {
            assert(msgs@.skip(rebuilt.len() as int) =~= consensus_votes(self.consensus));
        }
        Ok(msgs)
    }

    /// Takes in a vote of another elder, or of this one. The changes it proposes must be in
    /// order and there must be a consensus for its generation. A vote for a decided
    /// generation changes nothing. A vote for the generation that is being voted on goes to
    /// its consensus, unless there would then be votes of more voters than the section has
    /// elders; where the consensus has a decision afterwards, the generation ends: its
    /// consensus goes to the history and a new one is set up for the next generation.
    pub fn handle_signed_vote(&mut self, signed_vote: SignedVote) -> (r: Result<
        VoteResponse,
        MembershipError,
    >)
        ensures
            final(self).wf(),
            final(self).spec_bootstrap() == old(self).spec_bootstrap(),
            spec_moved_on(*old(self), *final(self)),
            spec_handled(*old(self), signed_vote, *final(self), r),
            match r {
                Ok(VoteResponse::WaitingForMoreVotes) => true,
                Ok(VoteResponse::Broadcast(vote)) => vote_gen(vote) == vote_gen(signed_vote),
                Ok(VoteResponse::Decided { proposals, broadcast }) => {
                    &&& final(self).spec_gen() == vote_gen(signed_vote)
                    &&& proposals@ == final(self).spec_decisions()[vote_gen(signed_vote) - 1]
                    &&& consensus_votes(final(self).spec_consensus()).len() == 0
                    &&& broadcast matches Some(vote) ==> vote_gen(vote) == vote_gen(signed_vote)
                },
                Err(_) => final(self).spec_gen() == old(self).spec_gen(),
            },
    {
        proof {
            use_type_invariant(&*self);
        }
        match self.validate_proposals(&signed_vote) {
            Ok(()) => {},
            Err(e) => {
                return Err(e);
            },
        }
        let vote_gen = signed_vote.gen();
        if vote_gen <= self.gen {
            return Ok(VoteResponse::WaitingForMoreVotes);
        }
        if !consensus_is_decided(&self.consensus) && !voters_fit(&self.consensus, &signed_vote) {
            return Err(MembershipError::TooManyVoters);
        }
        let Membership { consensus, bootstrap_members, gen, history } = self.take();
        let mut consensus = consensus;
        let result = consensus_handle_signed_vote(&mut consensus, signed_vote);
        let ghost before = history@;
        let decided = self.settle(consensus, bootstrap_members, gen, history);
        proof {
            if decided is Some {
                assert(self.spec_history().drop_last() =~= before);
                let last = self.spec_history()[gen as int];
                assert(self.spec_decisions()[gen as int] == spec_states(
                    consensus_proposals(last),
                ));
            }
        }
        match result {
            Ok(broadcast) => Ok(vote_response(decided, broadcast)),
            Err(e) => Err(MembershipError::Consensus(e)),
        }
    }
}

/// What is to be done once the consensus of the generation that is being voted on has taken
/// a vote in: with the changes that its decision adopts, if it has one, and the vote that it
/// wants to be sent on, if there is one.
pub fn vote_response(decided: Option<Vec<NodeState>>, broadcast: Option<SignedVote>) -> (r:
    VoteResponse)
    ensures
        spec_response(
            r,
            match decided {
                Some(proposals) => Some(proposals@),
                None => None,
            },
            broadcast,
        ),
{
    match decided {
        Some(proposals) => VoteResponse::Decided { proposals, broadcast },
        None => match broadcast {
            Some(vote) => VoteResponse::Broadcast(vote),
            None => VoteResponse::WaitingForMoreVotes,
        },
    }
}

/// Whether the response is the one that goes with the changes that were decided, if any
/// were, and the vote that is to be sent on, if there is one.
pub open spec fn spec_response(
    r: VoteResponse,
    decided: Option<Seq<NodeState>>,
    broadcast: Option<SignedVote>,
) -> bool {
    match decided {
        Some(adopted) => {
            &&& r matches VoteResponse::Decided { proposals, broadcast: sent }
            &&& proposals@ == adopted
            &&& sent == broadcast
        },
        None => match broadcast {
            Some(vote) => {
                &&& r matches VoteResponse::Broadcast(sent)
                &&& sent == vote
            },
            None => r is WaitingForMoreVotes,
        },
    }
}

/// What becomes of a membership at generation `gen` once the consensus of the generation
/// that is being voted on has taken a vote in: where the consensus has a decision, it is the
/// last of the history, the generation is the next one, and a new consensus is set up;
/// where it has none, it stays the consensus that is being voted on.
pub open spec fn spec_settled(
    consensus: Consensus,
    gen: Generation,
    history: Seq<Consensus>,
    after: Membership,
) -> bool {
    if consensus_decided(consensus) {
        &&& after.spec_gen() == gen + 1
        &&& after.spec_history() == history.push(consensus)
        &&& after.spec_consensus() == consensus_renewed(consensus)
    } else {
        &&& after.spec_gen() == gen
        &&& after.spec_history() == history
        &&& after.spec_consensus() == consensus
    }
}

/// What casting a vote makes of a membership and what comes back: nothing changes where the
/// vote is refused; else the consensus of the generation that is being voted on is what
/// `consensus_handled` names, and what comes back is the vote that the consensus wants to
/// be sent on or, where there is none, the vote that was cast.
pub open spec fn spec_cast(
    before: Membership,
    vote: SignedVote,
    after: Membership,
    r: Result<SignedVote, MembershipError>,
) -> bool {
    if before.spec_refuses(vote) {
        &&& r matches Err(MembershipError::TooManyVoters)
        &&& after == before
    } else {
        let (consensus, answer) = consensus_handled(before.spec_consensus(), vote);
        &&& after.spec_bootstrap() == before.spec_bootstrap()
        &&& after.spec_gen() == before.spec_gen()
        &&& after.spec_history() == before.spec_history()
        &&& after.spec_consensus() == consensus
        &&& match answer {
            Some(Some(broadcast)) => r matches Ok(sent) && sent == broadcast,
            Some(None) => r matches Ok(sent) && sent == vote,
            None => r matches Err(e) && e is Consensus,
        }
    }
}

/// What proposing a change makes of a membership and what comes back. In this order: there
/// must be a next generation; the vote must be signed; the change must be in order for the
/// members of the last decided generation; the vote must not be at odds with what the elder
/// voted before; then the vote is cast.
pub open spec fn spec_proposed(
    before: Membership,
    node_state: NodeState,
    after: Membership,
    r: Result<SignedVote, MembershipError>,
) -> bool {
    if before.spec_gen() == u64::MAX {
        &&& r matches Err(MembershipError::InvalidGeneration(g))
        &&& g == before.spec_gen()
        &&& after == before
    } else {
        match consensus_signed(
            before.spec_consensus(),
            (before.spec_gen() + 1) as u64,
            spec_item(node_state),
        ) {
            None => {
                &&& r matches Err(e)
                &&& e is Consensus
                &&& after == before
            },
            Some(vote) => match spec_validate(before.spec_members(before.spec_gen()), node_state) {
                Err(e) => {
                    &&& r == Err::<SignedVote, MembershipError>(e)
                    &&& after == before
                },
                Ok(()) => if vote_faulty(before.spec_consensus(), vote) {
                    &&& r matches Err(MembershipError::AttemptedFaultyProposal)
                    &&& after == before
                } else {
                    spec_cast(before, vote, after, r)
                },
            },
        }
    }
}

/// What taking a vote in makes of a membership and what the answer is. In this order: the
/// changes that the vote proposes must be in order at its generation; a vote for a decided
/// generation changes nothing; a vote that the consensus has to refuse changes nothing;
/// else the consensus takes the vote in, and the generation ends if it has a decision
/// afterwards.
pub open spec fn spec_handled(
    before: Membership,
    vote: SignedVote,
    after: Membership,
    r: Result<VoteResponse, MembershipError>,
) -> bool {
    let gen = vote_gen(vote);
    match before.spec_validate_proposals(gen, spec_states(vote_proposals(vote))) {
        Err(e) => {
            &&& r == Err::<VoteResponse, MembershipError>(e)
            &&& after == before
        },
        Ok(()) => if gen <= before.spec_gen() {
            &&& r matches Ok(VoteResponse::WaitingForMoreVotes)
            &&& after == before
        } else if before.spec_refuses(vote) {
            &&& r matches Err(MembershipError::TooManyVoters)
            &&& after == before
        } else {
            let (consensus, answer) = consensus_handled(before.spec_consensus(), vote);
            &&& spec_settled(consensus, before.spec_gen(), before.spec_history(), after)
            &&& match answer {
                Some(broadcast) => {
                    &&& r matches Ok(response)
                    &&& spec_response(
                        response,
                        if consensus_decided(consensus) {
                            Some(spec_states(consensus_proposals(consensus)))
                        } else {
                            None
                        },
                        broadcast,
                    )
                },
                None => {
                    &&& r matches Err(e)
                    &&& e is Consensus
                },
            }
        },
    }
}

/// How a membership moves on: either nothing is decided and the history is the same, or one
/// more generation is decided and its consensus is added to the history. What was decided
/// stays as it was.
pub open spec fn spec_moved_on(before: Membership, after: Membership) -> bool {
    ||| after.spec_gen() == before.spec_gen() && after.spec_history() == before.spec_history()
    ||| {
        &&& after.spec_gen() == before.spec_gen() + 1
        &&& after.spec_history().len() == before.spec_history().len() + 1
        &&& after.spec_history().drop_last() == before.spec_history()
        &&& consensus_decided(after.spec_history().last())
    }
}

/// The generations are dense: there is a consensus in the history for each generation from
/// the first to the last decided one, and each of them has a decision.
pub proof fn lemma_generations_dense(membership: Membership, gen: Generation)
    requires
        membership.wf(),
        1 <= gen <= membership.spec_gen(),
    ensures
        membership.spec_history().len() == membership.spec_gen(),
        consensus_decided(membership.spec_history()[gen - 1]),
{
    membership.lemma_wf();
}

/// A change that is in order admits no member twice and keeps the members within
/// `SOFT_MAX_MEMBERS`: a peer that joins was no member and makes one member more, of at most
/// that many; a peer that leaves or is moved away was a member, and the number stays.
pub proof fn lemma_validated_change(members: Map<Name, NodeState>, state: NodeState)
    requires
        members.dom().finite(),
        spec_validate(members, state) is Ok,
    ensures
        spec_apply(members, seq![state]) == members.insert(state.name, state),
        state.state == MembershipState::Joined ==> !members.contains_key(state.name) && spec_apply(
            members,
            seq![state],
        ).len() == members.len() + 1 && spec_apply(members, seq![state]).len() <= SOFT_MAX_MEMBERS,
        state.state != MembershipState::Joined ==> members.contains_key(state.name) && spec_apply(
            members,
            seq![state],
        ).len() == members.len(),
{
    assert(seq![state].drop_last() =~= Seq::<NodeState>::empty());
    assert(spec_apply(members, Seq::<NodeState>::empty()) == members);
    assert(members.insert(state.name, state).dom() =~= members.dom().insert(state.name));
}

/// The first error among the changes is the error of the first change that is out of order.
pub proof fn lemma_first_error(members: Map<Name, NodeState>, proposals: Seq<NodeState>, i: int)
    requires
        0 <= i < proposals.len(),
        spec_validate_all(members, proposals.take(i)) is Ok,
        spec_validate(members, proposals[i]) is Err,
    ensures
        spec_validate_all(members, proposals) == spec_validate(members, proposals[i]),
    decreases proposals.len() - i,
{
    assert(proposals.take(i + 1).drop_last() == proposals.take(i));
    assert(proposals.take(i + 1).last() == proposals[i]);
    lemma_error_stays(members, proposals, i + 1);
}

/// Once the changes up to a place have an error, that is the error of them all.
proof fn lemma_error_stays(members: Map<Name, NodeState>, proposals: Seq<NodeState>, upto: int)
    requires
        0 <= upto <= proposals.len(),
        spec_validate_all(members, proposals.take(upto)) is Err,
    ensures
        spec_validate_all(members, proposals) == spec_validate_all(members, proposals.take(upto)),
    decreases proposals.len() - upto,
{
    if upto == proposals.len() {
        assert(proposals.take(upto) == proposals);
    } else {
        assert(proposals.take(upto + 1).drop_last() == proposals.take(upto));
        lemma_error_stays(members, proposals, upto + 1);
    }
}

} // verus!
