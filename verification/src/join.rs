//! Joining a network: what a peer does with each answer to its requests to join.
//!
//! The peer sends requests and waits for answers; this module decides. Each answer is handed
//! to `Join::handle_response`, which says what to do next: send a request, wait for the next
//! answer, make a new identity, or stop, as a member or for good.

use vstd::prelude::*;
use secured_linked_list::SecuredLinkedList;
use crate::aggregator::{
    entry_live, result_fits, spec_add, AddOutcome, AggregatorError, EntryView,
    SignatureAggregator,
};
use crate::bls::{spec_public_key, PublicKey, Signature};
use crate::error::NodeError;
use crate::knowledge::{spec_new_check, NetworkKnowledge};
use crate::messages::{JoinRejectionReason, JoinRequest, JoinResponse, ResourceProofResponse};
use crate::name::{Name, Prefix};
use crate::node_state::{spec_encode_node_state, AuthedNodeState, NodeState};
use crate::prefix_map::{
    known_keys, put_section, responsible_for, spec_closest, spec_update_outcome,
    NetworkPrefixMap,
};
use crate::resource::{
    create_proof_data, solve_within, spec_proof_data, spec_solution, spec_tries,
};
use crate::sap::{
    Addr, Peer, SapView, SectionAuthorityProvider, Signed, SignedSap, SignedSapView,
};
use crate::signed::SignedShare;

verus! {

/// How long the shares of an approval are kept, in milliseconds: long enough for any section
/// that is not splitting to get its shares out.
pub const JOIN_SHARE_EXPIRATION: u64 = 900_000;

/// The first wait before a request is sent again, in milliseconds.
pub const BACKOFF_INITIAL_INTERVAL: u64 = 50;

/// The longest wait before a request is sent again, in milliseconds.
pub const BACKOFF_MAX_INTERVAL: u64 = 750;

/// The time after which the waits start over, in milliseconds.
pub const BACKOFF_MAX_ELAPSED: u64 = 60_000;

/// The joining peer as the network sees it. Its age is the last byte of its name.
#[derive(Clone, Copy, Debug, PartialEq, Eq)]
pub struct NodeInfo {
    pub name: Name,
    pub addr: Addr,
}

/// A request that waits for the peer's new identity before it is sent.
#[derive(Debug)]
pub struct PendingRetry {
    /// The prefix that the new name has to lie in.
    pub prefix: Prefix,
    /// The age that the new name has to carry.
    pub age: u8,
    /// The key of the section to ask.
    pub section_key: PublicKey,
    /// The elders to ask.
    pub recipients: Vec<Peer>,
}

/// What a joining peer knows and has done so far.
#[derive(Debug)]
pub struct Join {
    pub node: NodeInfo,
    /// The prefix of the section that the peer was last sent to.
    pub prefix: Prefix,
    pub prefix_map: NetworkPrefixMap,
    /// The shares of approvals, by the key of the section that the shares are of.
    pub signature_aggregators: Vec<(PublicKey, SignatureAggregator)>,
    /// The bytes of the state that the first share of an approval was for.
    pub node_state_serialized: Option<Vec<u8>>,
    /// Whether shares have made a signature already.
    pub aggregated: bool,
    /// The key of the section that the peer is asking.
    pub section_key: PublicKey,
    /// The peers that the first request went to.
    pub recipients: Vec<Peer>,
    /// To whom, and for which section key, requests went after a redirect.
    pub used_recipient_saps: Vec<(Addr, PublicKey)>,
    /// The request that waits for the peer's new identity.
    pub pending: Option<PendingRetry>,
    /// How many tries the peer spends at most on the search for the solution of one
    /// challenge.
    pub proof_tries: u64,
}

/// What the peer is to do next.
#[derive(Debug)]
pub enum JoinAction {
    /// Send the request to the recipients, addressed to the section with the key; back off
    /// first where `backoff` says so.
    Send { request: JoinRequest, recipients: Vec<Peer>, section_key: PublicKey, backoff: bool },
    /// Nothing to send: wait for the next answer.
    Wait,
    /// Make a new key pair whose name lies in the prefix and carries the age, and report it
    /// with `Join::identity_regenerated`.
    Regenerate { prefix: Prefix, age: u8 },
    /// The peer is a member. This is what it knows of the network.
    Approved(NetworkKnowledge),
    /// The peer cannot join.
    Failed(NodeError),
}

impl NodeInfo {
    /// The joining peer with the name, reachable at the address.
    pub fn new(name: Name, addr: Addr) -> (node: NodeInfo)
        ensures
            node == (NodeInfo { name, addr }),
    {
        NodeInfo { name, addr }
    }

    /// The node's age, which its name carries.
    pub fn age(&self) -> (age: u8)
        ensures
            age == self.name.bytes[31],
    {
        self.name.age()
    }

    /// The peer: the name and the address.
    pub fn peer(&self) -> (peer: Peer)
        ensures
            peer == (Peer { name: self.name, addr: self.addr }),
    {
        Peer { name: self.name, addr: self.addr }
    }
}

/// The prefix map to start joining with: the one kept from an earlier run, if its bytes can
/// be read, every authority in it is vouched for, and it is of the network with the given
/// genesis key; else one that knows of no section.
pub fn cached_prefix_map(cache: Option<&[u8]>, genesis_key: PublicKey) -> (map: NetworkPrefixMap)
    ensures
        map.wf(),
        map.spec_genesis_key() == genesis_key,
        map.spec_sections() == (match cache {
            Some(bytes) => match crate::codec::parse_map(bytes@) {
                Some((key, entries)) => if key == genesis_key && crate::prefix_map::all_authentic(
                    entries,
                ) && crate::prefix_map::distinct_prefixes(entries) {
                    entries
                } else {
                    Seq::empty()
                },
                None => Seq::empty(),
            },
            None => Seq::empty(),
        }),
{
    match cache {
        Some(bytes) => match NetworkPrefixMap::decode(bytes) {
            Ok(map) => {
                if map.genesis_key().same(&genesis_key) {
                    proof {
                        map.lemma_wf();
                    }
                    map
                } else {
                    NetworkPrefixMap::new(genesis_key)
                }
            },
            Err(_) => NetworkPrefixMap::new(genesis_key),
        },
        None => NetworkPrefixMap::new(genesis_key),
    }
}

/// How long to wait before a request is sent again, in milliseconds, and whether the waits
/// start over afterwards: the next wait of the schedule, or the longest wait once the
/// schedule has run out.
pub fn backoff_step(next_backoff: Option<u64>) -> (step: (u64, bool))
    ensures
        step == (match next_backoff {
            Some(wait) => (wait, false),
            None => (BACKOFF_MAX_INTERVAL, true),
        }),
{
    match next_backoff {
        Some(wait) => (wait, false),
        None => (BACKOFF_MAX_INTERVAL, true),
    }
}

/// The bits that an age stands for, the lowest first.
pub open spec fn spec_age_bits(cur: nat) -> Seq<bool>
    decreases cur,
{
    if cur == 0 {
        Seq::empty()
    } else {
        seq![cur % 2 == 1] + spec_age_bits(cur / 2)
    }
}

/// The prefix that the network expects of the name of a new peer of the given age: the bits
/// of half the age, the lowest first.
pub fn age_prefix(expected_age: u8) -> (prefix: Prefix)
    ensures
        prefix.wf(),
        prefix@ == spec_age_bits((expected_age / 2) as nat),
{
    let mut cur: u8 = expected_age / 2;
    let mut prefix = Prefix::empty();
    let mut left: u8 = 7;
    assert(cur < (1u8 << 7u8)) by (bit_vector)
        requires
            cur == expected_age / 2,
    ;
    assert(prefix@ + spec_age_bits(cur as nat) =~= spec_age_bits((expected_age / 2) as nat));
    while cur > 0
        invariant
            left <= 7,
            cur < (1u8 << left),
            prefix.wf(),
            prefix@.len() == 7 - left,
            prefix@ + spec_age_bits(cur as nat) == spec_age_bits((expected_age / 2) as nat),
        decreases cur,
    {
        let ghost before = prefix@;
        let ghost old_cur = cur;
        assert(left >= 1 && (cur / 2) < (1u8 << ((left - 1) as u8))) by (bit_vector)
            requires
                cur > 0,
                left <= 7,
                cur < (1u8 << left),
        ;
        prefix = prefix.pushed(cur % 2 == 1);
        cur = cur / 2;
        left = left - 1;
        proof {
            assert(prefix@ == before.push(old_cur % 2 == 1));
            assert(prefix@ + spec_age_bits(cur as nat) =~= before + spec_age_bits(old_cur as nat));
        }
    }
    assert(prefix@ + spec_age_bits(0) =~= prefix@);
    prefix
}

/// Whether the pair is one of the list.
pub fn contains_pair(used: &Vec<(Addr, PublicKey)>, addr: &Addr, key: &PublicKey) -> (found: bool)
    ensures
        found == used@.contains((*addr, *key)),
{
    let mut i: usize = 0;
    while i < used.len()
        invariant
            i <= used.len(),
            forall|k: int| 0 <= k < i ==> used@[k] != (*addr, *key),
        decreases used.len() - i,
    {
        if used[i].0.same(addr) && used[i].1.same(key) {
            return true;
        }
        i += 1;
    }
    false
}

/// The elders that have not been asked yet for the section key, and the list of whom was
/// asked for which key, with them added. Of elders at one address only the first counts.
pub open spec fn spec_fresh_recipients(
    elders: Seq<Peer>,
    used: Seq<(Addr, PublicKey)>,
    key: PublicKey,
) -> (Seq<Peer>, Seq<(Addr, PublicKey)>)
    decreases elders.len(),
{
    if elders.len() == 0 {
        (Seq::empty(), used)
    } else {
        let (fresh, marked) = spec_fresh_recipients(elders.drop_last(), used, key);
        let peer = elders.last();
        if marked.contains((peer.addr, key)) {
            (fresh, marked)
        } else {
            (fresh.push(peer), marked.push((peer.addr, key)))
        }
    }
}

/// Picks the elders that have not been asked yet for the section key, and marks them as
/// asked.
pub fn fresh_recipients(elders: &Vec<Peer>, used: &mut Vec<(Addr, PublicKey)>, key: &PublicKey) -> (fresh:
    Vec<Peer>)
    ensures
        (fresh@, final(used)@) == spec_fresh_recipients(elders@, old(used)@, *key),
{
    let ghost used0 = used@;
    let mut fresh: Vec<Peer> = Vec::new();
    let mut i: usize = 0;
    while i < elders.len()
        invariant
            i <= elders.len(),
            (fresh@, used@) == spec_fresh_recipients(elders@.take(i as int), used0, *key),
        decreases elders.len() - i,
    {
        proof {
            assert(elders@.take(i + 1).drop_last() == elders@.take(i as int));
        }
        let peer = elders[i];
        if !contains_pair(used, &peer.addr, key) {
            fresh.push(peer);
            used.push((peer.addr, *key));
        }
        i += 1;
    }
    proof {
        assert(elders@.take(elders.len() as int) == elders@);
    }
    fresh
}

/// Whether the action is to send a first request, one without a proof of resource and
/// without an approval, for the section key to the recipients.
pub open spec fn sends_plain(
    action: JoinAction,
    section_key: PublicKey,
    recipients: Seq<Peer>,
    backoff: bool,
) -> bool {
    match action {
        JoinAction::Send { request, recipients: to, section_key: key, backoff: wait } => {
            &&& request.section_key == section_key
            &&& request.resource_proof_response is None
            &&& request.aggregated is None
            &&& to@ == recipients
            &&& key == section_key
            &&& wait == backoff
        },
        _ => false,
    }
}

/// Whether the action is to send the answer to a challenge to the peer that sent it.
pub open spec fn sends_proof(
    action: JoinAction,
    section_key: PublicKey,
    sender: Peer,
    solution: u64,
    data: Seq<u8>,
    nonce: [u8; 32],
    nonce_signature: [u8; 64],
) -> bool {
    match action {
        JoinAction::Send { request, recipients, section_key: key, backoff } => {
            &&& request.section_key == section_key
            &&& request.aggregated is None
            &&& request.resource_proof_response matches Some(proof)
            &&& proof.solution == solution
            &&& proof.data@ == data
            &&& proof.nonce == nonce
            &&& proof.nonce_signature == nonce_signature
            &&& recipients@ == seq![sender]
            &&& key == section_key
            &&& !backoff
        },
        _ => false,
    }
}

/// Whether the action is to send the approval that the elders' shares made to the
/// recipients.
pub open spec fn sends_approval(
    action: JoinAction,
    section_key: PublicKey,
    recipients: Seq<Peer>,
    approval: AuthedNodeState,
) -> bool {
    match action {
        JoinAction::Send { request, recipients: to, section_key: key, backoff } => {
            &&& request.section_key == section_key
            &&& request.resource_proof_response is None
            &&& request.aggregated == Some(approval)
            &&& to@ == recipients
            &&& key == section_key
            &&& !backoff
        },
        _ => false,
    }
}

/// A first request to join the section with the key.
pub fn plain_request(section_key: PublicKey) -> (request: JoinRequest)
    ensures
        request.section_key == section_key,
        request.resource_proof_response is None,
        request.aggregated is None,
{
    JoinRequest { section_key, resource_proof_response: None, aggregated: None }
}

/// The request that answers a challenge with the data and the solution.
pub fn resource_proof_request(
    section_key: PublicKey,
    solution: u64,
    data: Vec<u8>,
    nonce: [u8; 32],
    nonce_signature: [u8; 64],
) -> (request: JoinRequest)
    ensures
        request.section_key == section_key,
        request.aggregated is None,
        request.resource_proof_response matches Some(proof) && proof.solution == solution
            && proof.data@ == data@ && proof.nonce == nonce && proof.nonce_signature
            == nonce_signature,
{
    JoinRequest {
        section_key,
        resource_proof_response: Some(
            ResourceProofResponse { solution, data, nonce, nonce_signature },
        ),
        aggregated: None,
    }
}

impl Join {
    /// The state of a peer that has not asked anybody yet. It sets no limit of its own to
    /// the search for the solution of a challenge; `proof_tries` can be set to one.
    pub fn new(node: NodeInfo, prefix_map: NetworkPrefixMap) -> (join: Join)
        ensures
            join.node == node,
            join.prefix@ == Seq::<bool>::empty(),
            join.prefix_map == prefix_map,
            join.signature_aggregators@.len() == 0,
            join.node_state_serialized is None,
            !join.aggregated,
            join.section_key == prefix_map.spec_genesis_key(),
            join.recipients@.len() == 0,
            join.used_recipient_saps@.len() == 0,
            join.pending is None,
            join.proof_tries == u64::MAX,
    {
        let section_key = prefix_map.genesis_key();
        Join {
            node,
            prefix: Prefix::empty(),
            prefix_map,
            signature_aggregators: Vec::new(),
            node_state_serialized: None,
            aggregated: false,
            section_key,
            recipients: Vec::new(),
            used_recipient_saps: Vec::new(),
            pending: None,
            proof_tries: u64::MAX,
        }
    }

    /// The first request: to the elders of the section that the prefix map holds
    /// responsible for the peer's name, or else to the bootstrap address under the genesis
    /// key. It is sent at once.
    pub fn start(&mut self, bootstrap_addr: Addr) -> (action: JoinAction)
        ensures
            final(self).node == old(self).node,
            final(self).prefix == old(self).prefix,
            final(self).prefix_map == old(self).prefix_map,
            final(self).signature_aggregators == old(self).signature_aggregators,
            final(self).node_state_serialized == old(self).node_state_serialized,
            final(self).aggregated == old(self).aggregated,
            final(self).used_recipient_saps == old(self).used_recipient_saps,
            final(self).pending == old(self).pending,
            final(self).proof_tries == old(self).proof_tries,
            exists|found: Option<SapView>|
                {
                    &&& responsible_for(
                        old(self).prefix_map.spec_sections(),
                        old(self).node.name,
                        found,
                    )
                    &&& match found {
                        Some(sap) => final(self).section_key.bytes@ == sap.section_key()
                            && final(self).recipients@ == sap.elders,
                        None => final(self).section_key == old(self).prefix_map.spec_genesis_key()
                            && final(self).recipients@ == seq![
                            Peer { name: old(self).node.name, addr: bootstrap_addr },
                        ],
                    }
                },
            sends_plain(action, final(self).section_key, final(self).recipients@, false),
    {
        let (section_key, recipients) = match self.prefix_map.section_by_name(&self.node.name) {
            Ok(sap) => {
                assert(responsible_for(self.prefix_map.spec_sections(), self.node.name, Some(sap@)));
                (sap.section_key(), sap.elders_vec())
            },
            Err(_) => {
                assert(responsible_for(self.prefix_map.spec_sections(), self.node.name, None));
                let mut one: Vec<Peer> = Vec::new();
                one.push(Peer::new(self.node.name, bootstrap_addr));
                (self.prefix_map.genesis_key(), one)
            },
        };
        self.section_key = section_key;
        self.recipients = crate::sap::copy_peers(&recipients);
        JoinAction::Send {
            request: plain_request(section_key),
            recipients,
            section_key,
            backoff: false,
        }
    }

    /// Where no more answers can come, the attempt ends with `InvalidState`.
    pub fn handle_closed(&self) -> (action: JoinAction)
        ensures
            action matches JoinAction::Failed(e) && e == NodeError::InvalidState,
    {
        JoinAction::Failed(NodeError::InvalidState)
    }

    /// A rejection ends the attempt: with `TryJoinLater` where the section takes nobody for
    /// now, with `NodeNotReachable` where the elders could not reach the peer.
    pub fn handle_rejected(&self, reason: JoinRejectionReason) -> (action: JoinAction)
        ensures
            action matches JoinAction::Failed(e) && e == (match reason {
                JoinRejectionReason::JoinsDisallowed => NodeError::TryJoinLater,
                JoinRejectionReason::NodeNotReachable(addr) => NodeError::NodeNotReachable(addr),
            }),
    {
        match reason {
            JoinRejectionReason::JoinsDisallowed => JoinAction::Failed(NodeError::TryJoinLater),
            JoinRejectionReason::NodeNotReachable(addr) => JoinAction::Failed(
                NodeError::NodeNotReachable(addr),
            ),
        }
    }

    /// A challenge is answered to the elder that sent it: with the nonce repeated to the
    /// size that was asked for, and the solution that the search finds for it. Where the
    /// search finds none within `proof_tries` tries, or the size is one that no memory can
    /// hold, the challenge is passed over.
    pub fn handle_challenge(
        &self,
        data_size: usize,
        difficulty: u8,
        nonce: [u8; 32],
        nonce_signature: [u8; 64],
        sender: Peer,
    ) -> (action: JoinAction)
        ensures
            spec_challenge_answered(
                *self,
                data_size,
                difficulty,
                nonce,
                nonce_signature,
                sender,
                action,
            ),
    {
        if data_size > isize::MAX as usize {
            return JoinAction::Wait;
        }
        let data = create_proof_data(data_size, difficulty, nonce.as_slice());
        let solution = match solve_within(data_size, difficulty, &data, self.proof_tries) {
            Some(solution) => solution,
            None => {
                return JoinAction::Wait;
            },
        };
        let mut recipients: Vec<Peer> = Vec::new();
        recipients.push(sender);
        JoinAction::Send {
            request: resource_proof_request(
                self.section_key,
                solution,
                data,
                nonce,
                nonce_signature,
            ),
            recipients,
            section_key: self.section_key,
            backoff: false,
        }
    }

    /// A redirect without elders, or for a prefix that the peer's name does not match, is
    /// passed over; so is one whose elders were all asked for its key before. Otherwise the
    /// elders not yet asked for the key are asked, after backing off, and the peer asks this
    /// section from now on.
    pub fn handle_redirect(&mut self, section_auth: SectionAuthorityProvider) -> (action: JoinAction)
        ensures
            spec_redirected(*old(self), *final(self), section_auth@, action),
    {
        if section_auth.elder_count() == 0 {
            return JoinAction::Wait;
        }
        if !section_auth.prefix().matches(&self.node.name) {
            return JoinAction::Wait;
        }
        let new_section_key = section_auth.section_key();
        proof {
            lemma_key_of(new_section_key);
        }
        let new_recipients = fresh_recipients(
            section_auth.elders(),
            &mut self.used_recipient_saps,
            &new_section_key,
        );
        if new_recipients.len() == 0 {
            return JoinAction::Wait;
        }
        self.section_key = new_section_key;
        self.prefix = section_auth.prefix();
        JoinAction::Send {
            request: plain_request(new_section_key),
            recipients: new_recipients,
            section_key: new_section_key,
            backoff: true,
        }
    }

    /// An answer that sends the peer back with the section's signed authority.
    ///
    /// It is passed over where the authority's prefix does not match the peer's name or the
    /// prefix map refuses the authority. Where the peer's age is not the expected one and no
    /// shares have made a signature yet, the peer is to take a new identity for the expected
    /// age before it asks again. Otherwise it asks the authority's elders under the
    /// authority's key, after backing off, unless the prefix map knew the authority already.
    pub fn handle_retry(
        &mut self,
        section_auth: SectionAuthorityProvider,
        section_signed: Signed,
        proof_chain: SecuredLinkedList,
        expected_age: u8,
    ) -> (action: JoinAction)
        ensures
            spec_retried(
                *old(self),
                *final(self),
                section_auth@,
                section_signed,
                proof_chain,
                expected_age,
                action,
            ),
    {
        if !section_auth.prefix().matches(&self.node.name) {
            return JoinAction::Wait;
        }
        let section_key = section_auth.section_key();
        let new_recipients = section_auth.elders_vec();
        let signed_sap = SignedSap::new(section_auth, section_signed);
        let stored = match self.prefix_map.update(signed_sap, &proof_chain) {
            Ok(updated) => Some(updated),
            Err(_) => None,
        };
        match retry_step(true, stored, self.node.age(), expected_age, self.aggregated) {
            RetryStep::Ignore => JoinAction::Wait,
            RetryStep::Regenerate => {
                let prefix = age_prefix(expected_age);
                self.pending = Some(
                    PendingRetry {
                        prefix,
                        age: expected_age,
                        section_key,
                        recipients: new_recipients,
                    },
                );
                JoinAction::Regenerate { prefix, age: expected_age }
            },
            RetryStep::Resend => {
                self.section_key = section_key;
                JoinAction::Send {
                    request: plain_request(section_key),
                    recipients: new_recipients,
                    section_key,
                    backoff: true,
                }
            },
        }
    }

    /// Takes in the name of the peer's new identity. Where no request waits for one, nothing
    /// happens. A name that does not lie in the prefix asked for, or does not carry the age
    /// asked for, is refused: another one is to be made. Otherwise the peer goes by the new
    /// name and sends the request that waited, after backing off.
    pub fn identity_regenerated(&mut self, name: Name) -> (action: JoinAction)
        ensures
            final(self).node.addr == old(self).node.addr,
            final(self).prefix == old(self).prefix,
            final(self).prefix_map == old(self).prefix_map,
            final(self).signature_aggregators == old(self).signature_aggregators,
            final(self).node_state_serialized == old(self).node_state_serialized,
            final(self).aggregated == old(self).aggregated,
            final(self).recipients == old(self).recipients,
            final(self).used_recipient_saps == old(self).used_recipient_saps,
            final(self).proof_tries == old(self).proof_tries,
            match old(self).pending {
                None => action is Wait && *final(self) == *old(self),
                Some(pending) => if pending.prefix.spec_matches(&name) && name.bytes[31]
                    == pending.age {
                    &&& final(self).node.name == name
                    &&& final(self).pending is None
                    &&& final(self).section_key == pending.section_key
                    &&& sends_plain(action, pending.section_key, pending.recipients@, true)
                } else {
                    &&& action matches JoinAction::Regenerate { prefix, age }
                    &&& prefix == pending.prefix
                    &&& age == pending.age
                    &&& final(self).node == old(self).node
                    &&& final(self).section_key == old(self).section_key
                    &&& final(self).pending matches Some(still)
                    &&& still.prefix == pending.prefix
                    &&& still.age == pending.age
                    &&& still.section_key == pending.section_key
                    &&& still.recipients@ == pending.recipients@
                },
            },
    {
        let mut pending: Option<PendingRetry> = None;
        core::mem::swap(&mut self.pending, &mut pending);
        match pending {
            None => JoinAction::Wait,
            Some(waiting) => {
                if waiting.prefix.matches(&name) && name.age() == waiting.age {
                    self.node = NodeInfo { name, addr: self.node.addr };
                    self.section_key = waiting.section_key;
                    JoinAction::Send {
                        request: plain_request(waiting.section_key),
                        recipients: waiting.recipients,
                        section_key: waiting.section_key,
                        backoff: true,
                    }
                } else {
                    let action = JoinAction::Regenerate { prefix: waiting.prefix, age: waiting.age };
                    self.pending = Some(waiting);
                    action
                }
            },
        }
    }

    /// An approval makes the peer a member if it is for the peer's name, the state it carries
    /// is signed with a key of the chain it comes with, and the section's authority and that
    /// chain stand the checks of `NetworkKnowledge::new`. What the peer then knows of the
    /// network starts from its prefix map and holds its own state. Any other approval is
    /// passed over.
    pub fn handle_approval(
        &self,
        genesis_key: PublicKey,
        section_auth: SignedSap,
        node_state: AuthedNodeState,
        section_chain: SecuredLinkedList,
    ) -> (action: JoinAction)
        ensures
            spec_approval_taken(
                *self,
                genesis_key,
                section_auth@,
                node_state,
                section_chain,
                action,
            ),
    {
        if !node_state.value.name.same(&self.node.name) {
            return JoinAction::Wait;
        }
        if !node_state.verify(&section_chain) {
            return JoinAction::Wait;
        }
        match NetworkKnowledge::new(
            genesis_key,
            section_chain,
            section_auth,
            Some(self.prefix_map.duplicate()),
        ) {
            Ok(mut knowledge) => {
                let _ = knowledge.update_member(node_state);
                JoinAction::Approved(knowledge)
            },
            Err(_) => JoinAction::Wait,
        }
    }

    /// One elder's share of an approval.
    ///
    /// The authority that comes with it is offered to the prefix map. The state's bytes are
    /// those of the first share that came; the share is added to the shares for the key of
    /// its key set. Once they make a signature, the approval is sent to the elders of the
    /// section closest to the peer's name, at once. While shares are missing the peer waits.
    /// A share that is refused makes the peer ask again where it was asking, after backing
    /// off, if the share's key is not the key of the section it is asking.
    pub fn handle_approval_share(
        &mut self,
        node_state: NodeState,
        sig_share: SignedShare,
        section_auth: SectionAuthorityProvider,
        section_signed: Signed,
        section_chain: SecuredLinkedList,
        now: u64,
    ) -> (action: JoinAction)
        ensures
            spec_share_noted(
                *old(self),
                *final(self),
                node_state,
                section_auth@,
                section_signed,
                section_chain,
            ),
            spec_share_kept(
                *old(self),
                *final(self),
                node_state,
                sig_share,
                now,
            ),
            spec_share_answered(
                *old(self),
                *final(self),
                node_state,
                sig_share,
                now,
                action,
            ),
    {
        let signed_sap = SignedSap::new(section_auth, section_signed);
        let _ = self.prefix_map.update(signed_sap, &section_chain);
        let serialized: Vec<u8> = match &self.node_state_serialized {
            Some(bytes) => copy_bytes(bytes),
            None => {
                let bytes = node_state.encode();
                self.node_state_serialized = Some(copy_bytes(&bytes));
                bytes
            },
        };
        let sig_pk = sig_share.public_key_set.public_key();
        proof {
            lemma_key_of(sig_pk);
        }
        let ghost aggs = self.signature_aggregators@;
        let found = find_aggregator(&self.signature_aggregators, &sig_pk);
        let (at, mut aggregator) = match found {
            Some(i) => {
                let entry = self.signature_aggregators.remove(i);
                (i, entry.1)
            },
            None => (
                self.signature_aggregators.len(),
                SignatureAggregator::with_expiration(JOIN_SHARE_EXPIRATION),
            ),
        };
        let ghost key_set = sig_share.public_key_set@;
        let ghost added_to = spec_share_added(*old(self), node_state, sig_share, now);
        let ghost slot = spec_share_slot(*old(self), key_set);
        proof {
            assert(serialized@ == spec_share_payload(*old(self), node_state));
            assert(slot.0 == at && slot.1 == aggregator.spec_entries() && slot.2
                == aggregator.spec_expiration() && slot.3 == (found is Some));
        }
        let result = aggregator.add(now, serialized.as_slice(), sig_share);
        proof {
            assert(aggregator.spec_entries() == added_to.0);
            assert(result_fits(result, added_to.1, serialized@, key_set));
        }
        self.signature_aggregators.insert(at, (sig_pk, aggregator));
        proof {
            let after = self.signature_aggregators@;
            assert(after[at as int].0 == sig_pk);
            assert(after[at as int].1.spec_entries() == added_to.0);
            assert forall|j: int| 0 <= j < aggs.len() && j != at implies after[j] == aggs[j] by {
                if found is Some {
                    if j < at {
                        assert(after[j] == aggs.remove(at as int)[j]);
                    } else {
                        assert(after[j] == aggs.remove(at as int)[j - 1]);
                    }
                }
            }
        }
        let added = match &result {
            Ok(_) => Ok(()),
            Err(e) => Err(*e),
        };
        match (share_step(added, sig_pk.same(&self.section_key)), result) {
            (ShareStep::SendApproval, Ok(sig)) => {
                self.aggregated = true;
                let auth = AuthedNodeState {
                    value: node_state,
                    sig: Signed { public_key: sig_pk, signature: sig },
                };
                match self.prefix_map.closest_or_opposite(&self.node.name, None) {
                    Some(closest) => {
                        let action = JoinAction::Send {
                            request: JoinRequest {
                                section_key: sig_pk,
                                resource_proof_response: None,
                                aggregated: Some(auth),
                            },
                            recipients: closest.value.elders_vec(),
                            section_key: sig_pk,
                            backoff: false,
                        };
                        proof {
                            let k = spec_closest(
                                self.prefix_map.spec_sections(),
                                self.node.name,
                                None,
                            );
                            assert(result_fits(
                                Ok::<Signature, AggregatorError>(sig),
                                added_to.1,
                                serialized@,
                                key_set,
                            ));
                            assert(sends_approval(
                                action,
                                sig_pk,
                                self.prefix_map.spec_sections()[k].value.elders,
                                auth,
                            ));
                        }
                        action
                    },
                    None => JoinAction::Wait,
                }
            },
            (ShareStep::AskAgain, _) => JoinAction::Send {
                request: plain_request(self.section_key),
                recipients: crate::sap::copy_peers(&self.recipients),
                section_key: self.section_key,
                backoff: true,
            },
            _ => JoinAction::Wait,
        }
    }

    /// Takes in an answer to a request to join, from the peer that sent it, at the time
    /// `now` in milliseconds, and says what to do next. Each kind of answer has its own
    /// function, which says what it does.
    pub fn handle_response(&mut self, response: JoinResponse, sender: Peer, now: u64) -> (action:
        JoinAction)
        ensures
            match response {
                JoinResponse::Rejected(reason) => {
                    &&& *final(self) == *old(self)
                    &&& action matches JoinAction::Failed(e)
                    &&& e == (match reason {
                        JoinRejectionReason::JoinsDisallowed => NodeError::TryJoinLater,
                        JoinRejectionReason::NodeNotReachable(addr) => NodeError::NodeNotReachable(
                            addr,
                        ),
                    })
                },
                JoinResponse::ResourceChallenge { data_size, difficulty, nonce, nonce_signature } => {
                    &&& *final(self) == *old(self)
                    &&& spec_challenge_answered(
                        *old(self),
                        data_size,
                        difficulty,
                        nonce,
                        nonce_signature,
                        sender,
                        action,
                    )
                },
                JoinResponse::Redirect(section_auth) => spec_redirected(
                    *old(self),
                    *final(self),
                    section_auth@,
                    action,
                ),
                JoinResponse::Retry { section_auth, section_signed, proof_chain, expected_age } => {
                    spec_retried(
                        *old(self),
                        *final(self),
                        section_auth@,
                        section_signed,
                        proof_chain,
                        expected_age,
                        action,
                    )
                },
                JoinResponse::ApprovalShare {
                    node_state,
                    sig_share,
                    section_auth,
                    section_signed,
                    section_chain,
                } => spec_share_taken(
                    *old(self),
                    *final(self),
                    node_state,
                    sig_share,
                    section_auth@,
                    section_signed,
                    section_chain,
                    now,
                    action,
                ),
                JoinResponse::Approval { genesis_key, section_auth, node_state, section_chain } => {
                    &&& *final(self) == *old(self)
                    &&& spec_approval_taken(
                        *old(self),
                        genesis_key,
                        section_auth@,
                        node_state,
                        section_chain,
                        action,
                    )
                },
            },
    {
        match response {
            JoinResponse::Rejected(reason) => self.handle_rejected(reason),
            JoinResponse::ResourceChallenge { data_size, difficulty, nonce, nonce_signature } => {
                self.handle_challenge(data_size, difficulty, nonce, nonce_signature, sender)
            },
            JoinResponse::Redirect(section_auth) => self.handle_redirect(section_auth),
            JoinResponse::Retry { section_auth, section_signed, proof_chain, expected_age } => {
                self.handle_retry(section_auth, section_signed, proof_chain, expected_age)
            },
            JoinResponse::ApprovalShare {
                node_state,
                sig_share,
                section_auth,
                section_signed,
                section_chain,
            } => self.handle_approval_share(
                node_state,
                sig_share,
                section_auth,
                section_signed,
                section_chain,
                now,
            ),
            JoinResponse::Approval { genesis_key, section_auth, node_state, section_chain } => {
                self.handle_approval(genesis_key, section_auth, node_state, section_chain)
            },
        }
    }
}

/// What a joining peer is to do with a challenge: send the data and its solution to the
/// peer that sent the challenge, where the search finds the solution within the tries that
/// the peer spends; else wait.
pub open spec fn spec_challenge_answered(
    join: Join,
    data_size: usize,
    difficulty: u8,
    nonce: [u8; 32],
    nonce_signature: [u8; 64],
    sender: Peer,
    action: JoinAction,
) -> bool {
    let data = spec_proof_data(nonce@, data_size as int);
    let solution = if data_size <= isize::MAX {
        spec_solution(data, difficulty, spec_tries(data_size as nat, join.proof_tries))
    } else {
        None
    };
    match solution {
        Some(found) => sends_proof(
            action,
            join.section_key,
            sender,
            found,
            data,
            nonce,
            nonce_signature,
        ),
        None => action is Wait,
    }
}

/// What a redirect does to a joining peer, and what the peer is to do then.
pub open spec fn spec_redirected(before: Join, after: Join, sap: SapView, action: JoinAction) -> bool {
    &&& after.node == before.node
    &&& after.prefix_map == before.prefix_map
    &&& after.signature_aggregators == before.signature_aggregators
    &&& after.node_state_serialized == before.node_state_serialized
    &&& after.aggregated == before.aggregated
    &&& after.recipients == before.recipients
    &&& after.pending == before.pending
    &&& after.proof_tries == before.proof_tries
    &&& ({
        if sap.elders.len() == 0 || !sap.prefix.spec_matches(&before.node.name) {
            &&& action is Wait
            &&& after.section_key == before.section_key
            &&& after.prefix == before.prefix
            &&& after.used_recipient_saps@ == before.used_recipient_saps@
        } else {
            let key = spec_public_key(sap.key_set);
            let (fresh, marked) = spec_fresh_recipients(
                sap.elders,
                before.used_recipient_saps@,
                spec_key_of(key),
            );
            &&& after.used_recipient_saps@ == marked
            &&& if fresh.len() == 0 {
                &&& action is Wait
                &&& after.section_key == before.section_key
                &&& after.prefix == before.prefix
            } else {
                &&& after.section_key.bytes@ == key
                &&& after.prefix == sap.prefix
                &&& sends_plain(action, after.section_key, fresh, true)
            }
        }
    })
}

/// What an answer that sends the peer back does to a joining peer, and what the peer is to
/// do then.
pub open spec fn spec_retried(
    before: Join,
    after: Join,
    sap: SapView,
    section_signed: Signed,
    proof_chain: SecuredLinkedList,
    expected_age: u8,
    action: JoinAction,
) -> bool {
    &&& after.node == before.node
    &&& after.prefix == before.prefix
    &&& after.prefix_map.spec_genesis_key() == before.prefix_map.spec_genesis_key()
    &&& after.signature_aggregators == before.signature_aggregators
    &&& after.node_state_serialized == before.node_state_serialized
    &&& after.aggregated == before.aggregated
    &&& after.recipients == before.recipients
    &&& after.used_recipient_saps == before.used_recipient_saps
    &&& after.proof_tries == before.proof_tries
    &&& ({
        let signed = SignedSapView { value: sap, sig: section_signed };
        let sections = before.prefix_map.spec_sections();
        let outcome = spec_update_outcome(
            sections,
            known_keys(before.prefix_map.spec_genesis_key(), sections),
            signed,
            proof_chain,
        );
        if !sap.prefix.spec_matches(&before.node.name) {
            &&& action is Wait
            &&& after.prefix_map.spec_sections() == sections
            &&& after.section_key == before.section_key
            &&& after.pending == before.pending
        } else {
            &&& after.prefix_map.spec_sections() == (if outcome == Ok::<bool, NodeError>(
                true,
            ) {
                put_section(sections, signed)
            } else {
                sections
            })
            &&& match outcome {
                Err(_) => {
                    &&& action is Wait
                    &&& after.section_key == before.section_key
                    &&& after.pending == before.pending
                },
                Ok(is_new) => if spec_wrong_age(before.node.name.bytes[31], expected_age)
                    && !before.aggregated {
                    &&& action matches JoinAction::Regenerate { prefix, age }
                    &&& prefix@ == spec_age_bits((expected_age / 2) as nat)
                    &&& age == expected_age
                    &&& after.section_key == before.section_key
                    &&& after.pending matches Some(pending)
                    &&& pending.prefix == prefix
                    &&& pending.age == expected_age
                    &&& pending.section_key.bytes@ == sap.section_key()
                    &&& pending.recipients@ == sap.elders
                } else if !is_new {
                    &&& action is Wait
                    &&& after.section_key == before.section_key
                    &&& after.pending == before.pending
                } else {
                    &&& after.section_key.bytes@ == sap.section_key()
                    &&& after.pending == before.pending
                    &&& sends_plain(action, after.section_key, sap.elders, true)
                },
            }
        }
    })
}

/// What an approval comes to: the peer is a member, with the knowledge described, or it
/// waits on.
pub open spec fn spec_approval_taken(
    join: Join,
    genesis_key: PublicKey,
    section_auth: SignedSapView,
    node_state: AuthedNodeState,
    section_chain: SecuredLinkedList,
    action: JoinAction,
) -> bool {
    match action {
        JoinAction::Approved(knowledge) => {
            &&& spec_approves(join, genesis_key, section_auth, node_state, section_chain)
            &&& knowledge.wf()
            &&& knowledge.spec_genesis_key() == genesis_key
            &&& knowledge.spec_chain() == section_chain
            &&& knowledge.spec_signed_sap() == section_auth
            &&& knowledge.spec_section_peers().spec_members() == crate::section_peers::spec_update(
                Map::empty(),
                Map::empty(),
                node_state,
            ).0
        },
        JoinAction::Wait => !spec_approves(
            join,
            genesis_key,
            section_auth,
            node_state,
            section_chain,
        ),
        _ => false,
    }
}

/// What a share of an approval does to what a joining peer knows: the authority that comes
/// with it is offered to the prefix map, and the bytes of the state are kept.
pub open spec fn spec_share_noted(
    before: Join,
    after: Join,
    node_state: NodeState,
    section_auth: SapView,
    section_signed: Signed,
    section_chain: SecuredLinkedList,
) -> bool {
    &&& after.node == before.node
    &&& after.prefix == before.prefix
    &&& after.prefix_map.spec_genesis_key() == before.prefix_map.spec_genesis_key()
    &&& after.section_key == before.section_key
    &&& after.recipients == before.recipients
    &&& after.used_recipient_saps == before.used_recipient_saps
    &&& after.pending == before.pending
    &&& after.proof_tries == before.proof_tries
    &&& ({
        let signed = SignedSapView { value: section_auth, sig: section_signed };
        let sections = before.prefix_map.spec_sections();
        after.prefix_map.spec_sections() == (if spec_update_outcome(
            sections,
            known_keys(before.prefix_map.spec_genesis_key(), sections),
            signed,
            section_chain,
        ) == Ok::<bool, NodeError>(true) {
            put_section(sections, signed)
        } else {
            sections
        })
    })
    &&& after.node_state_serialized matches Some(bytes) && bytes@ == spec_share_payload(
        before,
        node_state,
    )
}

/// What a share of an approval does to the shares that a joining peer keeps.
pub open spec fn spec_share_kept(
    before: Join,
    after: Join,
    node_state: NodeState,
    sig_share: SignedShare,
    now: u64,
) -> bool {
    ({
        let slot = spec_share_slot(before, sig_share.public_key_set@);
        let kept = after.signature_aggregators@;
        &&& kept.len() == before.signature_aggregators@.len() + (if slot.3 {
            0int
        } else {
            1int
        })
        &&& kept[slot.0].0 == spec_key_of(spec_public_key(sig_share.public_key_set@))
        &&& kept[slot.0].1.spec_expiration() == slot.2
        &&& kept[slot.0].1.spec_entries() == spec_share_added(
            before,
            node_state,
            sig_share,
            now,
        ).0
        &&& forall|j: int|
            0 <= j < before.signature_aggregators@.len() && j != slot.0 ==> kept[j]
                == before.signature_aggregators@[j]
    })
}

/// What a joining peer is to do once it has taken in a share of an approval.
pub open spec fn spec_share_answered(
    before: Join,
    after: Join,
    node_state: NodeState,
    sig_share: SignedShare,
    now: u64,
    action: JoinAction,
) -> bool {
    match spec_share_added(before, node_state, sig_share, now).1 {
        AddOutcome::Combined(shares) => {
            let closest = spec_closest(
                after.prefix_map.spec_sections(),
                before.node.name,
                None,
            );
            let key = spec_key_of(spec_public_key(sig_share.public_key_set@));
            &&& after.aggregated
            &&& if closest < 0 {
                action is Wait
            } else {
                exists|sig: Signature|
                    {
                        &&& result_fits(
                            Ok::<Signature, AggregatorError>(sig),
                            AddOutcome::Combined(shares),
                            spec_share_payload(before, node_state),
                            sig_share.public_key_set@,
                        )
                        &&& sends_approval(
                            action,
                            key,
                            after.prefix_map.spec_sections()[closest].value.elders,
                            AuthedNodeState {
                                value: node_state,
                                sig: Signed { public_key: key, signature: sig },
                            },
                        )
                    }
            }
        },
        AddOutcome::Waiting => action is Wait && after.aggregated == before.aggregated,
        AddOutcome::Duplicate => action is Wait && after.aggregated == before.aggregated,
        _ => {
            &&& after.aggregated == before.aggregated
            &&& if spec_key_of(spec_public_key(sig_share.public_key_set@)) != before.section_key {
                sends_plain(action, before.section_key, before.recipients@, true)
            } else {
                action is Wait
            }
        },
    }
}

/// What a share of an approval does to a joining peer, and what the peer is to do then.
pub open spec fn spec_share_taken(
    before: Join,
    after: Join,
    node_state: NodeState,
    sig_share: SignedShare,
    section_auth: SapView,
    section_signed: Signed,
    section_chain: SecuredLinkedList,
    now: u64,
    action: JoinAction,
) -> bool {
    &&& spec_share_noted(
        before,
        after,
        node_state,
        section_auth,
        section_signed,
        section_chain,
    )
    &&& spec_share_kept(
        before,
        after,
        node_state,
        sig_share,
        now,
    )
    &&& spec_share_answered(
        before,
        after,
        node_state,
        sig_share,
        now,
        action,
    )
}

/// What a peer is to do once it has added a share of an approval to the shares it keeps.
#[derive(Clone, Copy, PartialEq, Eq, Structural, Debug)]
pub enum ShareStep {
    /// The shares made a signature: send the approval.
    SendApproval,
    /// Wait for the next answer.
    Wait,
    /// Ask again where the peer was asking.
    AskAgain,
}

/// What a peer is to do once it has added a share of an approval: `added` says how adding it
/// went, and `key_is_target` whether the share's key is the key of the section that the peer
/// is asking.
pub open spec fn spec_share_step(added: Result<(), AggregatorError>, key_is_target: bool) -> ShareStep {
    match added {
        Ok(()) => ShareStep::SendApproval,
        Err(AggregatorError::NotEnoughShares) => ShareStep::Wait,
        Err(_) => if key_is_target {
            ShareStep::Wait
        } else {
            ShareStep::AskAgain
        },
    }
}

/// What a peer is to do once it has added a share of an approval to the shares it keeps.
pub fn share_step(added: Result<(), AggregatorError>, key_is_target: bool) -> (step: ShareStep)
    ensures
        step == spec_share_step(added, key_is_target),
{
    match added {
        Ok(()) => ShareStep::SendApproval,
        Err(AggregatorError::NotEnoughShares) => ShareStep::Wait,
        Err(_) => {
            if key_is_target {
                ShareStep::Wait
            } else {
                ShareStep::AskAgain
            }
        },
    }
}

/// What a peer is to do with an answer that sends it back with an authority.
#[derive(Clone, Copy, PartialEq, Eq, Structural, Debug)]
pub enum RetryStep {
    /// Pass the answer over.
    Ignore,
    /// Take a new identity for the expected age, then ask again.
    Regenerate,
    /// Ask the elders of the authority.
    Resend,
}

/// What a peer is to do with an answer that sends it back: `prefix_matches` says whether the
/// authority's prefix matches the peer's name, `stored` what the prefix map made of the
/// authority (nothing where it refused it), `age` and `expected_age` the peer's age and the
/// one that the section expects, and `aggregated` whether shares have made a signature.
pub open spec fn spec_retry_step(
    prefix_matches: bool,
    stored: Option<bool>,
    age: u8,
    expected_age: u8,
    aggregated: bool,
) -> RetryStep {
    if !prefix_matches {
        RetryStep::Ignore
    } else {
        match stored {
            None => RetryStep::Ignore,
            Some(is_new) => if spec_wrong_age(age, expected_age) && !aggregated {
                RetryStep::Regenerate
            } else if !is_new {
                RetryStep::Ignore
            } else {
                RetryStep::Resend
            },
        }
    }
}

/// What a peer is to do with an answer that sends it back with an authority.
pub fn retry_step(prefix_matches: bool, stored: Option<bool>, age: u8, expected_age: u8, aggregated: bool) -> (step:
    RetryStep)
    ensures
        step == spec_retry_step(prefix_matches, stored, age, expected_age, aggregated),
{
    if !prefix_matches {
        return RetryStep::Ignore;
    }
    match stored {
        None => RetryStep::Ignore,
        Some(is_new) => {
            if age != expected_age && !aggregated {
                RetryStep::Regenerate
            } else if !is_new {
                RetryStep::Ignore
            } else {
                RetryStep::Resend
            }
        },
    }
}

/// Whether the age of a peer is wrong for joining: not the one that the section expects.
pub open spec fn spec_wrong_age(age: u8, expected_age: u8) -> bool {
    age != expected_age
}

/// Whether an approval makes the peer a member: it is for the peer's name, the state is
/// signed with a key of the chain, and the authority and the chain stand the checks of
/// `NetworkKnowledge::new` under the peer's prefix map.
pub open spec fn spec_approves(
    join: Join,
    genesis_key: PublicKey,
    section_auth: SignedSapView,
    node_state: AuthedNodeState,
    section_chain: SecuredLinkedList,
) -> bool {
    &&& node_state.value.name == join.node.name
    &&& node_state.spec_verify(section_chain)
    &&& spec_new_check(
        genesis_key,
        section_chain,
        section_auth,
        Some(join.prefix_map.spec_genesis_key()),
    ) is None
}

/// The bytes that shares of an approval are checked against: those kept from the first
/// share, or else those of the state.
pub open spec fn spec_share_payload(join: Join, node_state: NodeState) -> Seq<u8> {
    match join.node_state_serialized {
        Some(bytes) => bytes@,
        None => spec_encode_node_state(node_state),
    }
}

/// Where the shares for a key set go: the place of the aggregator for its key, that
/// aggregator's entries and time of expiration, and whether there is one already. Where there
/// is none, a new one goes to the end.
pub open spec fn spec_share_slot(join: Join, key_set: Seq<u8>) -> (int, Seq<EntryView>, u64, bool) {
    let aggs = join.signature_aggregators@;
    let idx = spec_aggregator_index(aggs, spec_key_of(spec_public_key(key_set)), aggs.len() as int);
    if idx >= 0 {
        (idx, aggs[idx].1.spec_entries(), aggs[idx].1.spec_expiration(), true)
    } else {
        (aggs.len() as int, Seq::empty(), JOIN_SHARE_EXPIRATION, false)
    }
}

/// What adding a share of an approval makes of the entries of its aggregator, and what it
/// comes to.
pub open spec fn spec_share_added(join: Join, node_state: NodeState, sig_share: SignedShare, now: u64) -> (
    Seq<EntryView>,
    AddOutcome,
) {
    let slot = spec_share_slot(join, sig_share.public_key_set@);
    spec_add(
        slot.1.filter(|e: EntryView| entry_live(e, now, slot.2)),
        now,
        spec_share_payload(join, node_state),
        sig_share.public_key_set@,
        sig_share.index as u64,
        sig_share.signature_share,
    )
}

/// Where the first aggregator for the key stands among the first `upto`, or -1.
pub open spec fn spec_aggregator_index(
    aggs: Seq<(PublicKey, SignatureAggregator)>,
    key: PublicKey,
    upto: int,
) -> int
    decreases upto,
{
    if upto <= 0 {
        -1
    } else {
        let before = spec_aggregator_index(aggs, key, upto - 1);
        if before >= 0 {
            before
        } else if aggs[upto - 1].0 == key {
            upto - 1
        } else {
            -1
        }
    }
}

/// Where the first aggregator for the key stands.
pub fn find_aggregator(aggs: &Vec<(PublicKey, SignatureAggregator)>, key: &PublicKey) -> (r: Option<
    usize,
>)
    ensures
        match r {
            Some(i) => i < aggs@.len() && i == spec_aggregator_index(
                aggs@,
                *key,
                aggs@.len() as int,
            ) && aggs@[i as int].0 == *key,
            None => spec_aggregator_index(aggs@, *key, aggs@.len() as int) < 0,
        },
{
    let mut i: usize = 0;
    while i < aggs.len()
        invariant
            i <= aggs.len(),
            spec_aggregator_index(aggs@, *key, i as int) < 0,
        decreases aggs.len() - i,
    {
        if aggs[i].0.same(key) {
            proof {
                lemma_aggregator_index_stays(aggs@, *key, i as int, aggs@.len() as int);
            }
            return Some(i);
        }
        i += 1;
    }
    None
}

/// Once a place is found it stays the answer, however far the search goes on.
proof fn lemma_aggregator_index_stays(
    aggs: Seq<(PublicKey, SignatureAggregator)>,
    key: PublicKey,
    i: int,
    upto: int,
)
    requires
        0 <= i < upto <= aggs.len(),
        spec_aggregator_index(aggs, key, i) < 0,
        aggs[i].0 == key,
    ensures
        spec_aggregator_index(aggs, key, upto) == i,
    decreases upto - i,
{
    if upto > i + 1 {
        lemma_aggregator_index_stays(aggs, key, i, upto - 1);
    }
}

/// A copy of the bytes.
pub fn copy_bytes(bytes: &Vec<u8>) -> (copy: Vec<u8>)
    ensures
        copy@ == bytes@,
{
    let mut copy: Vec<u8> = Vec::new();
    copy.extend_from_slice(bytes.as_slice());
    copy
}

/// The key with the given bytes.
pub open spec fn spec_key_of(bytes: Seq<u8>) -> PublicKey {
    choose|key: PublicKey| key.bytes@ == bytes
}

/// A key is the key of its bytes.
pub proof fn lemma_key_of(key: PublicKey)
    ensures
        spec_key_of(key.bytes@) == key,
{
    let other = spec_key_of(key.bytes@);
    assert(other.bytes@ == key.bytes@);
    assert(other.bytes =~= key.bytes);
}

} // verus!
