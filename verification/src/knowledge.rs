//! What a node knows of the network: its own section's authority and chain of keys, the
//! members of its section, and the authorities and chains of the other sections it has
//! heard of.

use vstd::prelude::*;
use secured_linked_list::SecuredLinkedList;
use crate::bls::{
    bls_combined, bls_key_valid, bls_public_keys, bls_secret_share, bls_share_signed,
    bls_share_zero, bls_verifies, combine_shares, public_keys_of, secret_key_share_of,
    share_is_zero, shares_view, sign_share,
    spec_key_set_bytes, spec_public_key, PublicKey, PublicKeySet, SignatureShare,
};
use crate::chain::{
    chain_branch, chain_clone, chain_get_proof_chain, chain_has_key, chain_join, chain_joined,
    chain_keys, chain_last_key, chain_main_branch_len, chain_new, chain_path, chain_root_key,
    chain_self_verify, chain_verified, spec_has_key, spec_last, spec_root, ChainError,
};
use crate::elders::{
    elder_candidates, peers_of, spec_is_choice, spec_peers_of, supermajority, ElderCandidates,
};
use crate::error::NodeError;
use crate::name::{Name, Prefix};
use crate::name_map::map_filter;
use crate::node_state::{spec_encode_node_state, AuthedNodeState, MembershipState, NodeState};
use crate::prefix_map::{
    has_prefix, index_of_prefix, known_keys, put_section, responsible_for, spec_closest,
    spec_update_outcome, NetworkPrefixMap,
};
use crate::sap::{
    has_name, last_of_each_name, peers_sorted, spec_encode_sap, Peer, SapView, SectionAuthorityProvider, Signed,
    SignedSap, SignedSapView,
};
use crate::section_peers::{lists_states, spec_update, SectionPeers};

verus! {

/// The number of elders that a section aims at.
pub const ELDER_COUNT: usize = 7;

/// The number of members that a section wants before it splits: twice the elders.
pub const RECOMMENDED_SECTION_SIZE: usize = 14;

/// The section keys for which this node holds a share of the secret key.
#[derive(Debug)]
pub struct SectionKeysProvider {
    pub keys: Vec<PublicKey>,
}

impl SectionKeysProvider {
    /// Whether one of the keys is the given one.
    pub open spec fn spec_has_key_share(&self, key: Seq<u8>) -> bool {
        crate::prefix_map::key_bytes(self.keys@).contains(key)
    }

    /// A node that holds no share of any key.
    pub fn new() -> (provider: Self)
        ensures
            provider.keys@ == Seq::<PublicKey>::empty(),
    {
        SectionKeysProvider { keys: Vec::new() }
    }

    /// Notes that the node holds a share of the key.
    pub fn insert(&mut self, key: PublicKey)
        ensures
            final(self).keys@ == old(self).keys@.push(key),
    {
        self.keys.push(key);
    }

    /// Whether the node holds a share of the key.
    pub fn has_key_share(&self, key: &PublicKey) -> (r: bool)
        ensures
            r == self.spec_has_key_share(key.bytes@),
    {
        crate::prefix_map::contains_key(&self.keys, key)
    }
}

/// What a node knows of the network.
///
/// `chain` is the chain of the node's own section, from the genesis key to the key of
/// `signed_sap`, the section's current authority. `all_sections_chains` gathers every chain
/// that came with an authority the node took in.
#[derive(Debug)]
pub struct NetworkKnowledge {
    genesis_key: PublicKey,
    chain: SecuredLinkedList,
    signed_sap: SignedSap,
    section_peers: SectionPeers,
    prefix_map: NetworkPrefixMap,
    all_sections_chains: SecuredLinkedList,
}

/// What was found of the parts that knowledge of a network is to be made of.
#[derive(Clone, Copy, Debug)]
pub struct NewFacts {
    /// The chain starts at the genesis key.
    pub chain_starts_at_genesis: bool,
    /// The chain ends in the key that comes with the authority's signature.
    pub chain_ends_in_key: bool,
    /// The signature is good for the authority under that key.
    pub verifies: bool,
    /// That key is the one that the authority names as its section's.
    pub signed_by_section_key: bool,
    /// Every key of the chain is signed by the one before it.
    pub chain_verifies: bool,
    /// The genesis key of the prefix map that was handed in, if it is another than the
    /// genesis key.
    pub other_genesis: Option<PublicKey>,
}

/// Why knowledge cannot be made of the parts, given what was found of them: the error of the
/// first check that fails, in the order of the fields; nothing where all is well.
pub open spec fn spec_new_decision(facts: NewFacts) -> Option<NodeError> {
    if !facts.chain_starts_at_genesis {
        Some(NodeError::UntrustedProofChain)
    } else if !facts.chain_ends_in_key {
        Some(NodeError::UntrustedSectionAuthProvider)
    } else if !facts.verifies {
        Some(NodeError::UntrustedSectionAuthProvider)
    } else if !facts.signed_by_section_key {
        Some(NodeError::UntrustedSectionAuthProvider)
    } else if !facts.chain_verifies {
        Some(NodeError::UntrustedProofChain)
    } else {
        match facts.other_genesis {
            Some(key) => Some(NodeError::InvalidGenesisKey(key)),
            None => None,
        }
    }
}

/// Why knowledge cannot be made of the parts, given what was found of them.
pub fn new_decision(facts: NewFacts) -> (r: Option<NodeError>)
    ensures
        r == spec_new_decision(facts),
{
    if !facts.chain_starts_at_genesis {
        Some(NodeError::UntrustedProofChain)
    } else if !facts.chain_ends_in_key {
        Some(NodeError::UntrustedSectionAuthProvider)
    } else if !facts.verifies {
        Some(NodeError::UntrustedSectionAuthProvider)
    } else if !facts.signed_by_section_key {
        Some(NodeError::UntrustedSectionAuthProvider)
    } else if !facts.chain_verifies {
        Some(NodeError::UntrustedProofChain)
    } else {
        match facts.other_genesis {
            Some(key) => Some(NodeError::InvalidGenesisKey(key)),
            None => None,
        }
    }
}

/// What `NetworkKnowledge::new` checks, in its order, and the error of the first check that
/// fails.
pub open spec fn spec_new_check(
    genesis_key: PublicKey,
    chain: SecuredLinkedList,
    signed_sap: SignedSapView,
    passed_genesis: Option<PublicKey>,
) -> Option<NodeError> {
    spec_new_decision(
        NewFacts {
            chain_starts_at_genesis: genesis_key.bytes@ == spec_root(chain),
            chain_ends_in_key: signed_sap.sig.public_key.bytes@ == spec_last(chain),
            verifies: signed_sap.self_verify(),
            signed_by_section_key: signed_sap.sig.public_key.bytes@
                == signed_sap.value.section_key(),
            chain_verifies: chain_verified(chain),
            other_genesis: match passed_genesis {
                Some(key) => if key != genesis_key {
                    Some(key)
                } else {
                    None
                },
                None => None,
            },
        },
    )
}

/// The genesis key of an optional prefix map.
pub open spec fn spec_passed_genesis(map: Option<NetworkPrefixMap>) -> Option<PublicKey> {
    match map {
        Some(map) => Some(map.spec_genesis_key()),
        None => None,
    }
}

/// The entries of an optional prefix map.
pub open spec fn spec_passed_sections(map: Option<NetworkPrefixMap>) -> Seq<SignedSapView> {
    match map {
        Some(map) => map.spec_sections(),
        None => Seq::empty(),
    }
}

impl NetworkKnowledge {
    /// The network's first key.
    pub closed spec fn spec_genesis_key(&self) -> PublicKey {
        self.genesis_key
    }

    /// The chain of the node's own section.
    pub closed spec fn spec_chain(&self) -> SecuredLinkedList {
        self.chain
    }

    /// The current authority of the node's own section.
    pub closed spec fn spec_signed_sap(&self) -> SignedSapView {
        self.signed_sap@
    }

    /// The members of the section and the archive.
    pub closed spec fn spec_section_peers(&self) -> SectionPeers {
        self.section_peers
    }

    /// What is known of the sections of the network.
    pub closed spec fn spec_prefix_map(&self) -> NetworkPrefixMap {
        self.prefix_map
    }

    /// Every chain that the node has taken in, joined into one.
    pub closed spec fn spec_all_sections_chains(&self) -> SecuredLinkedList {
        self.all_sections_chains
    }

    /// The genesis key is the root of the section chain and the genesis key of the prefix
    /// map; the section chain verifies and ends in the key of the current authority, which
    /// is vouched for by that key; the gathered chains verify and hold the genesis key; and
    /// every state of a member, and every state in the archive, is signed with a key of the
    /// section chain and verifies under it. Every value of the type that the program holds
    /// is of this form.
    #[verifier::type_invariant]
    pub closed spec fn wf(&self) -> bool {
        &&& self.genesis_key.bytes@ == spec_root(self.chain)
        &&& self.prefix_map.spec_genesis_key() == self.genesis_key
        &&& self.signed_sap@.value.wf()
        &&& self.signed_sap@.authentic()
        &&& self.signed_sap@.sig.public_key.bytes@ == spec_last(self.chain)
        &&& chain_verified(self.chain)
        &&& chain_verified(self.all_sections_chains)
        &&& spec_has_key(self.all_sections_chains, self.genesis_key.bytes@)
        &&& self.prefix_map.wf()
        &&& self.section_peers.wf()
        &&& states_verify(self.section_peers.spec_members(), self.chain)
        &&& states_verify(self.section_peers.spec_archive(), self.chain)
    }

    /// What the invariant says, for code that holds a value of the type.
    pub proof fn lemma_wf(&self)
        requires
            self.wf(),
        ensures
            self.spec_genesis_key().bytes@ == spec_root(self.spec_chain()),
            self.spec_prefix_map().spec_genesis_key() == self.spec_genesis_key(),
            self.spec_signed_sap().value.wf(),
            self.spec_signed_sap().authentic(),
            self.spec_signed_sap().sig.public_key.bytes@ == spec_last(self.spec_chain()),
            chain_verified(self.spec_chain()),
            chain_verified(self.spec_all_sections_chains()),
            spec_has_key(self.spec_all_sections_chains(), self.spec_genesis_key().bytes@),
            self.spec_prefix_map().wf(),
            self.spec_section_peers().wf(),
            states_verify(self.spec_section_peers().spec_members(), self.spec_chain()),
            states_verify(self.spec_section_peers().spec_archive(), self.spec_chain()),
    {
    }

    /// Knowledge of a network of which only the node's own section is known: its chain and
    /// its authority. A prefix map may be given to start from.
    ///
    /// Fails where the chain does not start at the genesis key, does not end in the key of
    /// the authority, or does not verify; where the authority is not vouched for by its own
    /// key; and where the prefix map was made for another genesis key. The authority is
    /// offered to the prefix map, which may or may not take it.
    pub fn new(
        genesis_key: PublicKey,
        chain: SecuredLinkedList,
        signed_sap: SignedSap,
        passed_prefix_map: Option<NetworkPrefixMap>,
    ) -> (r: Result<Self, NodeError>)
        ensures
            match r {
                Ok(knowledge) => {
                    &&& spec_new_check(
                        genesis_key,
                        chain,
                        signed_sap@,
                        spec_passed_genesis(passed_prefix_map),
                    ) is None
                    &&& knowledge.wf()
                    &&& knowledge.spec_genesis_key() == genesis_key
                    &&& knowledge.spec_chain() == chain
                    &&& knowledge.spec_all_sections_chains() == chain
                    &&& knowledge.spec_signed_sap() == signed_sap@
                    &&& knowledge.spec_section_peers().spec_members() == Map::<
                        Name,
                        AuthedNodeState,
                    >::empty()
                    &&& knowledge.spec_section_peers().spec_archive() == Map::<
                        Name,
                        AuthedNodeState,
                    >::empty()
                    &&& knowledge.spec_prefix_map().spec_sections() == ({
                        let sections = spec_passed_sections(passed_prefix_map);
                        if spec_update_outcome(
                            sections,
                            known_keys(genesis_key, sections),
                            signed_sap@,
                            chain,
                        ) == Ok::<bool, NodeError>(true) {
                            put_section(sections, signed_sap@)
                        } else {
                            sections
                        }
                    })
                },
                Err(e) => spec_new_check(
                    genesis_key,
                    chain,
                    signed_sap@,
                    spec_passed_genesis(passed_prefix_map),
                ) == Some(e),
            },
    {
        proof {
            use_type_invariant(&signed_sap.value);
            signed_sap.value.lemma_wf();
        }
        let chain_starts_at_genesis = genesis_key.same(&chain_root_key(&chain));
        let chain_ends_in_key = chain_starts_at_genesis && signed_sap.sig.public_key.same(
            &chain_last_key(&chain),
        );
        let verifies = chain_ends_in_key && signed_sap.self_verify();
        let signed_by_section_key = verifies && signed_sap.sig.public_key.same(
            &signed_sap.section_key(),
        );
        let chain_verifies = signed_by_section_key && chain_self_verify(&chain);
        let other_genesis = match &passed_prefix_map {
            Some(map) => {
                if !map.genesis_key().same(&genesis_key) {
                    Some(map.genesis_key())
                } else {
                    None
                }
            },
            None => None,
        };
        match new_decision(
            NewFacts {
                chain_starts_at_genesis,
                chain_ends_in_key,
                verifies,
                signed_by_section_key,
                chain_verifies,
                other_genesis,
            },
        ) {
            Some(e) => {
                return Err(e);
            },
            None => {},
        }
        let mut prefix_map = match passed_prefix_map {
            Some(map) => {
                proof {
                    use_type_invariant(&map);
                }
                map
            },
            None => NetworkPrefixMap::new(genesis_key),
        };
        let _ = prefix_map.update(signed_sap.clone(), &chain);
        let all_sections_chains = chain_clone(&chain);
        Ok(
            NetworkKnowledge {
                genesis_key,
                chain,
                signed_sap,
                section_peers: SectionPeers::new(),
                prefix_map,
                all_sections_chains,
            },
        )
    }

    /// The prefix map.
    pub fn prefix_map(&self) -> (map: &NetworkPrefixMap)
        ensures
            *map == self.spec_prefix_map(),
            map.wf(),
    {
        proof {
            use_type_invariant(self);
        }
        &self.prefix_map
    }

    /// The authority of the section that is responsible for the name.
    pub fn section_by_name(&self, name: &Name) -> (r: Result<SectionAuthorityProvider, NodeError>)
        ensures
            match r {
                Ok(sap) => responsible_for(
                    self.spec_prefix_map().spec_sections(),
                    *name,
                    Some(sap@),
                ),
                Err(e) => e == NodeError::NoMatchingSection && responsible_for(
                    self.spec_prefix_map().spec_sections(),
                    *name,
                    None,
                ),
            },
    {
        self.prefix_map.section_by_name(name)
    }

    /// The network's first key.
    pub fn genesis_key(&self) -> (key: PublicKey)
        ensures
            key == self.spec_genesis_key(),
            key.bytes@ == spec_root(self.spec_chain()),
            key == self.spec_prefix_map().spec_genesis_key(),
    {
        proof {
            use_type_invariant(self);
        }
        self.genesis_key
    }

    /// A copy of the section chain.
    pub fn section_chain(&self) -> (chain: SecuredLinkedList)
        ensures
            chain == self.spec_chain(),
    {
        chain_clone(&self.chain)
    }

    /// A copy of the gathered chains.
    pub fn all_sections_chains(&self) -> (chain: SecuredLinkedList)
        ensures
            chain == self.spec_all_sections_chains(),
    {
        chain_clone(&self.all_sections_chains)
    }

    /// The chain from the given key to the section's current key, cut from the section
    /// chain.
    pub fn get_proof_chain_to_current(&self, from_key: &PublicKey) -> (r: Result<
        SecuredLinkedList,
        NodeError,
    >)
        ensures
            match r {
                Ok(sub) => {
                    &&& chain_path(
                        self.spec_chain(),
                        from_key.bytes@,
                        self.spec_signed_sap().value.section_key(),
                    ) == Some(chain_keys(sub))
                    &&& spec_root(sub) == from_key.bytes@
                    &&& spec_last(sub) == self.spec_signed_sap().value.section_key()
                    &&& chain_verified(sub)
                },
                Err(e) => {
                    &&& chain_path(
                        self.spec_chain(),
                        from_key.bytes@,
                        self.spec_signed_sap().value.section_key(),
                    ) is None
                    &&& e matches NodeError::Chain(kind)
                    &&& kind == ChainError::KeyNotFound <==> !spec_has_key(
                        self.spec_chain(),
                        from_key.bytes@,
                    )
                },
            },
    {
        proof {
            use_type_invariant(self);
        }
        let our_section_key = self.signed_sap.section_key();
        match chain_get_proof_chain(&self.chain, from_key, &our_section_key) {
            Ok(sub) => Ok(sub),
            Err(kind) => Err(NodeError::Chain(kind)),
        }
    }

    /// The section's current key.
    pub fn section_key(&self) -> (key: PublicKey)
        ensures
            key.bytes@ == self.spec_signed_sap().value.section_key(),
            key.bytes@ == spec_last(self.spec_chain()),
    {
        proof {
            use_type_invariant(self);
        }
        self.signed_sap.section_key()
    }

    /// The length of the section chain's main branch.
    pub fn chain_len(&self) -> (n: u64)
        ensures
            n == chain_branch(self.spec_chain()).len(),
    {
        chain_main_branch_len(&self.chain) as u64
    }

    /// Whether the section chain holds the key.
    pub fn has_chain_key(&self, key: &PublicKey) -> (r: bool)
        ensures
            r == spec_has_key(self.spec_chain(), key.bytes@),
    {
        chain_has_key(&self.chain, key)
    }

    /// A copy of the section's current authority.
    pub fn authority_provider(&self) -> (sap: SectionAuthorityProvider)
        ensures
            sap@ == self.spec_signed_sap().value,
    {
        self.signed_sap.value.clone()
    }

    /// A copy of the section's current authority with its signature.
    pub fn section_signed_authority_provider(&self) -> (sap: SignedSap)
        ensures
            sap@ == self.spec_signed_sap(),
            sap@.authentic(),
    {
        proof {
            use_type_invariant(self);
        }
        self.signed_sap.clone()
    }

    /// The section's prefix.
    pub fn prefix(&self) -> (prefix: Prefix)
        ensures
            prefix == self.spec_signed_sap().value.prefix,
            prefix.wf(),
    {
        self.signed_sap.prefix()
    }

    /// The section's elders, in the order of their names.
    pub fn elders(&self) -> (elders: Vec<Peer>)
        ensures
            elders@ == self.spec_signed_sap().value.elders,
    {
        self.signed_sap.value.elders_vec()
    }

    /// Whether the name is that of an elder of the section.
    pub fn is_elder(&self, name: &Name) -> (r: bool)
        ensures
            r == has_name(self.spec_signed_sap().value.elders, *name),
    {
        self.signed_sap.value.contains_elder(name)
    }

    /// The members' signed states, in the order of their names.
    pub fn section_signed_members(&self) -> (list: Vec<AuthedNodeState>)
        ensures
            list@ == self.spec_section_peers().spec_member_list(),
            list@.len() == self.spec_section_peers().spec_len(),
            lists_states(list@, self.spec_section_peers().spec_members()),
    {
        self.section_peers.members()
    }

    /// The members' states, in the order of their names.
    pub fn section_members(&self) -> (list: Vec<NodeState>)
        ensures
            list@ == self.spec_section_peers().spec_member_list().map_values(
                |s: AuthedNodeState| s.value,
            ),
            list@.len() == self.spec_section_peers().spec_len(),
            forall|i: int|
                0 <= i < list@.len() ==> self.spec_section_peers().spec_members().contains_key(
                    (#[trigger] list@[i]).name,
                ) && self.spec_section_peers().spec_members()[list@[i].name].value == list@[i],
            forall|n: Name|
                self.spec_section_peers().spec_members().contains_key(n) ==> list@.contains(
                    (#[trigger] self.spec_section_peers().spec_members()[n]).value,
                ),
    {
        let signed = self.section_peers.members();
        let mut list: Vec<NodeState> = Vec::new();
        let mut i: usize = 0;
        while i < signed.len()
            invariant
                i <= signed.len(),
                list@.len() == i,
                forall|k: int| 0 <= k < i ==> #[trigger] list@[k] == signed@[k].value,
            decreases signed.len() - i,
        {
            list.push(signed[i].value);
            i += 1;
        }
        proof {
            assert(list@ =~= signed@.map_values(|s: AuthedNodeState| s.value));
            assert forall|n: Name|
                self.spec_section_peers().spec_members().contains_key(n) implies list@.contains(
                (#[trigger] self.spec_section_peers().spec_members()[n]).value,
            ) by {
                let s = self.spec_section_peers().spec_members()[n];
                let k = choose|k: int| 0 <= k < signed@.len() && signed@[k] == s;
                assert(list@[k] == s.value);
            }
        }
        list
    }

    /// The number of members of the section.
    pub fn section_size(&self) -> (n: usize)
        ensures
            n == self.spec_section_peers().spec_len(),
            n == self.spec_section_peers().spec_members().len(),
    {
        self.section_peers.num_of_members()
    }

    /// The members that are no elders, in the order of their names.
    pub fn adults(&self) -> (adults: Vec<Peer>)
        ensures
            peers_sorted(adults@),
            forall|p: Peer|
                adults@.contains(p) <==> {
                    let members = self.spec_section_peers().spec_members();
                    &&& members.contains_key(p.name)
                    &&& members[p.name].value.addr == p.addr
                    &&& !has_name(self.spec_signed_sap().value.elders, p.name)
                },
    {
        proof {
            use_type_invariant(self);
            use_type_invariant(&self.section_peers);
            self.section_peers.lemma_wf();
        }
        let members = self.section_peers.members();
        let ghost map = self.spec_section_peers().spec_members();
        let ghost elders = self.spec_signed_sap().value.elders;
        let mut adults: Vec<Peer> = Vec::new();
        let mut i: usize = 0;
        while i < members.len()
            invariant
                i <= members.len(),
                lists_states(members@, map),
                elders == self.spec_signed_sap().value.elders,
                peers_sorted(adults@),
                forall|p: Peer|
                    adults@.contains(p) <==> exists|k: int|
                        0 <= k < i && (#[trigger] members@[k]).value.name == p.name
                            && members@[k].value.addr == p.addr && !has_name(elders, p.name),
            decreases members.len() - i,
        {
            let state = members[i].value;
            if !self.is_elder(&state.name) {
                let ghost before = adults@;
                adults.push(state.peer());
                proof {
                    assert forall|a: int, b: int| 0 <= a < b < adults@.len() implies (
                    #[trigger] adults@[a]).name.spec_lt(&(#[trigger] adults@[b]).name) by {
                        if b == before.len() {
                            assert(before[a] == adults@[a]);
                            assert(before.contains(adults@[a]));
                            let k = choose|k: int|
                                0 <= k < i && (#[trigger] members@[k]).value.name == adults@[a].name
                                    && members@[k].value.addr == adults@[a].addr && !has_name(
                                    elders,
                                    adults@[a].name,
                                );
                            assert(members@[k].value.name.spec_lt(&members@[i as int].value.name));
                        } else {
                            assert(before[a] == adults@[a] && before[b] == adults@[b]);
                        }
                    }
                    assert forall|p: Peer|
                        adults@.contains(p) <==> exists|k: int|
                            0 <= k < i + 1 && (#[trigger] members@[k]).value.name == p.name
                                && members@[k].value.addr == p.addr && !has_name(elders, p.name) by {
                        if adults@.contains(p) {
                            let a = choose|a: int| 0 <= a < adults@.len() && adults@[a] == p;
                            if a < before.len() {
                                assert(before[a] == p);
                                assert(before.contains(p));
                            } else {
                                assert(members@[i as int].value.name == p.name);
                            }
                        }
                        if exists|k: int|
                            0 <= k < i + 1 && (#[trigger] members@[k]).value.name == p.name
                                && members@[k].value.addr == p.addr && !has_name(elders, p.name) {
                            let k = choose|k: int|
                                0 <= k < i + 1 && (#[trigger] members@[k]).value.name == p.name
                                    && members@[k].value.addr == p.addr && !has_name(
                                    elders,
                                    p.name,
                                );
                            if k < i {
                                assert(before.contains(p));
                                let a = choose|a: int| 0 <= a < before.len() && before[a] == p;
                                assert(adults@[a] == p);
                            } else {
                                assert(adults@[adults@.len() - 1] == p);
                            }
                        }
                    }
                }
            } else {
                proof {
                    assert forall|p: Peer|
                        adults@.contains(p) <==> exists|k: int|
                            0 <= k < i + 1 && (#[trigger] members@[k]).value.name == p.name
                                && members@[k].value.addr == p.addr && !has_name(elders, p.name) by {
                        if exists|k: int|
                            0 <= k < i + 1 && (#[trigger] members@[k]).value.name == p.name
                                && members@[k].value.addr == p.addr && !has_name(elders, p.name) {
                            let k = choose|k: int|
                                0 <= k < i + 1 && (#[trigger] members@[k]).value.name == p.name
                                    && members@[k].value.addr == p.addr && !has_name(
                                    elders,
                                    p.name,
                                );
                            assert(k < i);
                        }
                    }
                }
            }
            i += 1;
        }
        proof {
            assert forall|p: Peer|
                adults@.contains(p) <==> {
                    &&& map.contains_key(p.name)
                    &&& map[p.name].value.addr == p.addr
                    &&& !has_name(elders, p.name)
                } by {
                if map.contains_key(p.name) && map[p.name].value.addr == p.addr && !has_name(
                    elders,
                    p.name,
                ) {
                    let k = choose|k: int| 0 <= k < members@.len() && members@[k] == map[p.name];
                    assert(members@[k].value.name == p.name);
                }
            }
        }
        adults
    }

    /// The state of the member with the name.
    pub fn get_section_member(&self, name: &Name) -> (r: Option<NodeState>)
        ensures
            r == (if self.spec_section_peers().spec_members().contains_key(*name) {
                Some(self.spec_section_peers().spec_members()[*name].value)
            } else {
                None
            }),
    {
        self.section_peers.get(name)
    }

    /// The signed state under the name, from the members or else from the archive.
    pub fn is_either_member_or_archived(&self, name: &Name) -> (r: Option<AuthedNodeState>)
        ensures
            r == (if self.spec_section_peers().spec_members().contains_key(*name) {
                Some(self.spec_section_peers().spec_members()[*name])
            } else if self.spec_section_peers().spec_archive().contains_key(*name) {
                Some(self.spec_section_peers().spec_archive()[*name])
            } else {
                None
            }),
    {
        self.section_peers.is_either_member_or_archived(name)
    }

    /// Whether the name is that of a member of the section.
    pub fn is_section_member(&self, name: &Name) -> (r: bool)
        ensures
            r == self.spec_section_peers().spec_members().contains_key(*name),
    {
        self.section_peers.is_member(name)
    }

    /// Whether a member was known under the name before it was moved to this section.
    pub fn is_relocated_to_our_section(&self, name: &Name) -> (r: bool)
        ensures
            r == (exists|n: Name|
                self.spec_section_peers().spec_members().contains_key(n) && (
                #[trigger] self.spec_section_peers().spec_members()[n]).value.previous_name == Some(
                    *name,
                )),
    {
        self.section_peers.is_relocated_to_our_section(name)
    }

    /// The member that can be reached at the address: of several, the first in the order of
    /// names.
    pub fn find_member_by_addr(&self, addr: &crate::sap::Addr) -> (r: Option<Peer>)
        ensures
            match r {
                Some(peer) => {
                    let members = self.spec_section_peers().spec_members();
                    &&& peer.addr == *addr
                    &&& members.contains_key(peer.name)
                    &&& members[peer.name].value.addr == *addr
                    &&& forall|n: Name|
                        members.contains_key(n) && (#[trigger] members[n]).value.addr == *addr
                            ==> n == peer.name || peer.name.spec_lt(&n)
                },
                None => forall|n: Name|
                    self.spec_section_peers().spec_members().contains_key(n) ==> (
                    #[trigger] self.spec_section_peers().spec_members()[n]).value.addr != *addr,
            },
    {
        proof {
            use_type_invariant(self);
            use_type_invariant(&self.section_peers);
            self.section_peers.lemma_wf();
        }
        let members = self.section_peers.members();
        let ghost map = self.spec_section_peers().spec_members();
        let mut i: usize = 0;
        while i < members.len()
            invariant
                i <= members.len(),
                lists_states(members@, map),
                map == self.spec_section_peers().spec_members(),
                crate::section_peers::keyed_by_name(map),
                forall|k: int| 0 <= k < i ==> (#[trigger] members@[k]).value.addr != *addr,
            decreases members.len() - i,
        {
            if members[i].value.addr.same(addr) {
                proof {
                    assert forall|n: Name|
                        map.contains_key(n) && (#[trigger] map[n]).value.addr == *addr implies n
                        == members@[i as int].value.name || members@[i as int].value.name.spec_lt(
                        &n,
                    ) by {
                        let k = choose|k: int| 0 <= k < members@.len() && members@[k] == map[n];
                        assert(members@[k].value.name == n);
                        if k > i {
                            assert(members@[i as int].value.name.spec_lt(&members@[k].value.name));
                        }
                    }
                }
                return Some(members[i].value.peer());
            }
            i += 1;
        }
        proof {
            assert forall|n: Name| map.contains_key(n) implies (#[trigger] map[n]).value.addr
                != *addr by {
                let k = choose|k: int| 0 <= k < members@.len() && members@[k] == map[n];
            }
        }
        None
    }

    /// What the first node of a network knows: it is the only elder of the only section,
    /// whose key is the genesis key, and a member of it. With it comes its share of the
    /// section's secret key.
    ///
    /// Fails where the secret key set gives no key set that can be read, where the node's
    /// own share does not make a signature that verifies, and where the genesis key is no
    /// key: see `spec_first_node_error`.
    pub fn first_node(peer: Peer, genesis_sk_set: &blsttc::SecretKeySet) -> (r: Result<
        (NetworkKnowledge, SectionKeyShare),
        NodeError,
    >)
        ensures
            match spec_first_node_error(peer, *genesis_sk_set) {
                Some(e) => r matches Err(found) && found == e,
                None => r is Ok,
            },
            r matches Ok((knowledge, share)) ==> {
                &&& knowledge.wf()
                &&& knowledge.spec_genesis_key().bytes@ == knowledge.spec_signed_sap().value.section_key()
                &&& knowledge.spec_signed_sap().value.elders == seq![peer]
                &&& knowledge.spec_signed_sap().value.prefix@ == Seq::<bool>::empty()
                &&& chain_keys(knowledge.spec_chain()) == seq![knowledge.spec_genesis_key().bytes@]
                &&& chain_branch(knowledge.spec_chain()) == seq![
                    knowledge.spec_genesis_key().bytes@,
                ]
                &&& share.index == 0
                &&& share.public_key_set@ == knowledge.spec_signed_sap().value.key_set
                &&& knowledge.spec_signed_sap().value.key_set == bls_public_keys(*genesis_sk_set)
                &&& share.secret_key_share == bls_secret_share(*genesis_sk_set, 0)
                &&& exists|sig: Signed| #[trigger]
                    spec_first_member(knowledge, peer, sig) && spec_first_sig(
                        bls_public_keys(*genesis_sk_set),
                        bls_secret_share(*genesis_sk_set, 0),
                        spec_encode_node_state(spec_first_state(peer)),
                    ) == Some(sig.signature.bytes@)
            },
    {
        let public_key_set = match PublicKeySet::from_bytes(public_keys_of(genesis_sk_set)) {
            Some(set) => set,
            None => {
                return Err(NodeError::InvalidPayload);
            },
        };
        let secret_key_share = secret_key_share_of(genesis_sk_set, 0);
        let genesis_key = public_key_set.public_key();
        let section_auth = match create_first_section_authority_provider(
            &public_key_set,
            &secret_key_share,
            peer,
        ) {
            Ok(signed) => signed,
            Err(e) => {
                return Err(e);
            },
        };
        let chain = match chain_new(&genesis_key) {
            Some(chain) => chain,
            None => {
                return Err(NodeError::UntrustedProofChain);
            },
        };
        let mut knowledge = match NetworkKnowledge::new(genesis_key, chain, section_auth, None) {
            Ok(knowledge) => knowledge,
            Err(e) => {
                return Err(e);
            },
        };
        let node_state = NodeState::joined(peer, None);
        let payload = node_state.encode();
        match create_first_sig(&public_key_set, &secret_key_share, payload.as_slice()) {
            Ok(sig) => {
                let _ = knowledge.update_member(AuthedNodeState::new(node_state, sig));
                proof {
                    assert(sig.public_key.bytes =~= genesis_key.bytes);
                    assert(spec_first_member(knowledge, peer, sig));
                }
            },
            Err(e) => {
                return Err(e);
            },
        }
        let section_key_share = SectionKeyShare { public_key_set, index: 0, secret_key_share };
        Ok((knowledge, section_key_share))
    }

    /// Takes the members, the prefix map and the gathered chains out, leaving members none,
    /// a prefix map without entries and the section chain in their place.
    fn take_parts(&mut self) -> (parts: (SectionPeers, NetworkPrefixMap, SecuredLinkedList))
        ensures
            final(self).wf(),
            final(self).spec_genesis_key() == old(self).spec_genesis_key(),
            final(self).spec_chain() == old(self).spec_chain(),
            final(self).spec_signed_sap() == old(self).spec_signed_sap(),
            parts.0 == old(self).spec_section_peers(),
            parts.1 == old(self).spec_prefix_map(),
            parts.2 == old(self).spec_all_sections_chains(),
            parts.0.wf(),
            parts.1.wf(),
    {
        proof {
            use_type_invariant(&*self);
        }
        let mut peers = SectionPeers::new();
        core::mem::swap(&mut self.section_peers, &mut peers);
        let mut prefix_map = NetworkPrefixMap::new(self.genesis_key);
        core::mem::swap(&mut self.prefix_map, &mut prefix_map);
        // a chain holds its root, so a copy of the section chain holds the genesis key
        let _ = chain_root_key(&self.chain);
        let mut chains = chain_clone(&self.chain);
        core::mem::swap(&mut self.all_sections_chains, &mut chains);
        (peers, prefix_map, chains)
    }

    /// Takes in a member's new state if it is signed with a key of the section chain, and
    /// says whether anything changed.
    pub fn update_member(&mut self, node_state: AuthedNodeState) -> (changed: bool)
        ensures
            final(self).wf(),
            same_authority(*old(self), *final(self)),
            (
                final(self).spec_section_peers().spec_members(),
                final(self).spec_section_peers().spec_archive(),
                changed,
            ) == (if node_state.spec_verify(old(self).spec_chain()) {
                spec_update(
                    old(self).spec_section_peers().spec_members(),
                    old(self).spec_section_peers().spec_archive(),
                    node_state,
                )
            } else {
                (
                    old(self).spec_section_peers().spec_members(),
                    old(self).spec_section_peers().spec_archive(),
                    false,
                )
            }),
    {
        proof {
            use_type_invariant(&*self);
        }
        if !node_state.verify(&self.chain) {
            return false;
        }
        let mut peers = SectionPeers::new();
        core::mem::swap(&mut self.section_peers, &mut peers);
        let changed = peers.update(node_state);
        self.section_peers = peers;
        changed
    }

    /// Takes in the new states of members, in the order given, each if it is signed with a
    /// key of the section chain; then drops the members whose names the section's prefix
    /// does not match. Says whether any state changed anything.
    pub fn merge_members(&mut self, peers: Vec<AuthedNodeState>) -> (r: Result<bool, NodeError>)
        ensures
            final(self).wf(),
            same_authority(*old(self), *final(self)),
            ({
                let (members, archive, changed) = spec_merge(
                    old(self).spec_section_peers().spec_members(),
                    old(self).spec_section_peers().spec_archive(),
                    old(self).spec_chain(),
                    peers@,
                );
                &&& r == Ok::<bool, NodeError>(changed)
                &&& final(self).spec_section_peers().spec_members() == map_filter(
                    members,
                    |n: Name, s: AuthedNodeState|
                        old(self).spec_signed_sap().value.prefix.spec_matches(&n),
                )
                &&& final(self).spec_section_peers().spec_archive() == archive
            }),
    {
        proof {
            use_type_invariant(&*self);
        }
        let mut section_peers = SectionPeers::new();
        core::mem::swap(&mut self.section_peers, &mut section_peers);
        let ghost me = *self;
        let ghost members0 = section_peers.spec_members();
        let ghost archive0 = section_peers.spec_archive();
        let mut updated = false;
        let mut i: usize = 0;
        while i < peers.len()
            invariant
                i <= peers.len(),
                *self == me,
                section_peers.wf(),
                states_verify(section_peers.spec_members(), me.spec_chain()),
                states_verify(section_peers.spec_archive(), me.spec_chain()),
                (section_peers.spec_members(), section_peers.spec_archive(), updated) == spec_merge(
                    members0,
                    archive0,
                    me.spec_chain(),
                    peers@.take(i as int),
                ),
            decreases peers.len() - i,
        {
            proof {
                assert(peers@.take(i + 1).drop_last() == peers@.take(i as int));
            }
            if peers[i].verify(&self.chain) {
                if section_peers.update(peers[i]) {
                    updated = true;
                }
            }
            i += 1;
        }
        proof {
            assert(peers@.take(peers.len() as int) == peers@);
        }
        let prefix = self.signed_sap.prefix();
        section_peers.retain(&prefix);
        self.section_peers = section_peers;
        Ok(updated)
    }

    /// Makes the authority and the chain the section's current ones; drops the members whose
    /// names the new prefix does not match, and from the members and the archive the states
    /// signed with a key that the new chain does not hold.
    fn set_current(&mut self, signed_sap: SignedSap, section_chain: SecuredLinkedList)
        requires
            signed_sap@.value.wf(),
            signed_sap@.authentic(),
            spec_root(section_chain) == old(self).spec_genesis_key().bytes@,
            spec_last(section_chain) == signed_sap@.value.section_key(),
            chain_verified(section_chain),
        ensures
            final(self).wf(),
            final(self).spec_genesis_key() == old(self).spec_genesis_key(),
            final(self).spec_prefix_map() == old(self).spec_prefix_map(),
            final(self).spec_all_sections_chains() == old(self).spec_all_sections_chains(),
            final(self).spec_signed_sap() == signed_sap@,
            final(self).spec_chain() == section_chain,
            switched_members(*old(self), *final(self)),
    {
        proof {
            use_type_invariant(&*self);
        }
        let genesis_key = self.genesis_key;
        let (mut peers, prefix_map, chains) = self.take_parts();
        let prefix = signed_sap.prefix();
        peers.retain(&prefix);
        peers.prune_members(&section_chain);
        peers.prune_members_archive(&section_chain);
        *self = NetworkKnowledge {
            genesis_key,
            chain: section_chain,
            signed_sap,
            section_peers: peers,
            prefix_map,
            all_sections_chains: chains,
        };
    }

    /// Makes the authority that the prefix map holds for the prefix the section's current
    /// one, if it has the given key and the gathered chains lead from the genesis key to it.
    /// Says whether it did.
    pub fn try_update_current_sap(&mut self, section_key: PublicKey, prefix: &Prefix) -> (switched:
        bool)
        ensures
            final(self).wf(),
            final(self).spec_genesis_key() == old(self).spec_genesis_key(),
            final(self).spec_prefix_map() == old(self).spec_prefix_map(),
            final(self).spec_all_sections_chains() == old(self).spec_all_sections_chains(),
            switched == spec_can_switch(*old(self), section_key.bytes@, *prefix),
            switched ==> {
                &&& has_prefix(old(self).spec_prefix_map().spec_sections(), *prefix)
                &&& final(self).spec_signed_sap() == old(self).spec_prefix_map().spec_sections()[index_of_prefix(
                    old(self).spec_prefix_map().spec_sections(),
                    *prefix,
                )]
                &&& chain_path(
                    old(self).spec_all_sections_chains(),
                    old(self).spec_genesis_key().bytes@,
                    section_key.bytes@,
                ) == Some(chain_keys(final(self).spec_chain()))
                &&& switched_members(*old(self), *final(self))
            },
            !switched ==> same_authority(*old(self), *final(self)) && same_members(
                *old(self),
                *final(self),
            ),
    {
        proof {
            use_type_invariant(&*self);
            use_type_invariant(&self.prefix_map);
            self.prefix_map.lemma_wf();
        }
        let ghost sections = self.prefix_map.spec_sections();
        match self.prefix_map.get_signed(prefix) {
            Some(signed_sap) => {
                proof {
                    let k = choose|k: int| 0 <= k < sections.len() && sections[k] == signed_sap@;
                    let j = index_of_prefix(sections, *prefix);
                    if k < j {
                        assert(sections[k].value.prefix != sections[j].value.prefix);
                    } else if j < k {
                        assert(sections[j].value.prefix != sections[k].value.prefix);
                    }
                }
                if !signed_sap.section_key().same(&section_key) {
                    return false;
                }
                match chain_get_proof_chain(&self.all_sections_chains, &self.genesis_key, &section_key) {
                    Ok(section_chain) => {
                        self.set_current(signed_sap, section_chain);
                        true
                    },
                    Err(_) => false,
                }
            },
            None => false,
        }
    }

    /// Takes in a signed authority that comes with a chain of keys, trusting the keys of the
    /// section chain.
    ///
    /// Where the prefix map would store it, the chain is joined to the gathered chains, which
    /// must still verify afterwards and lead from the genesis key to the authority's key;
    /// where they do not, the call fails and nothing changes, the prefix map neither. The
    /// authority then becomes the section's current one if its prefix matches our name and
    /// we either are no elder under it or hold a share of its key. Says whether the prefix
    /// map stored it.
    pub fn update_sap_if_valid(
        &mut self,
        signed_sap: SignedSap,
        proof_chain: &SecuredLinkedList,
        our_name: &Name,
        section_keys_provider: &SectionKeysProvider,
    ) -> (r: Result<bool, NodeError>)
        ensures
            final(self).wf(),
            final(self).spec_genesis_key() == old(self).spec_genesis_key(),
            ({
                let sections = old(self).spec_prefix_map().spec_sections();
                let outcome = spec_update_outcome(
                    sections,
                    chain_keys(old(self).spec_chain()),
                    signed_sap@,
                    *proof_chain,
                );
                let stored = outcome == Ok::<bool, NodeError>(true);
                match (if stored {
                    spec_adopt_error(
                        old(self).spec_all_sections_chains(),
                        old(self).spec_genesis_key().bytes@,
                        signed_sap@.value,
                        *proof_chain,
                    )
                } else {
                    None
                }) {
                    Some(e) => {
                        &&& r == Err::<bool, NodeError>(e)
                        &&& same_authority(*old(self), *final(self))
                        &&& same_members(*old(self), *final(self))
                    },
                    None => {
                        &&& r == Ok::<bool, NodeError>(stored)
                        &&& final(self).spec_prefix_map().spec_sections() == (if stored {
                            put_section(sections, signed_sap@)
                        } else {
                            sections
                        })
                        &&& !stored ==> same_members(*old(self), *final(self)) && same_authority(
                            *old(self),
                            *final(self),
                        )
                        &&& stored ==> final(self).spec_all_sections_chains() == chain_joined(
                            old(self).spec_all_sections_chains(),
                            *proof_chain,
                        ) && sap_adopted(
                            *old(self),
                            *final(self),
                            signed_sap@,
                            *proof_chain,
                            *our_name,
                            section_keys_provider.spec_has_key_share(
                                signed_sap@.value.section_key(),
                            ),
                        )
                    },
                }
            }),
    {
        proof {
            use_type_invariant(&*self);
            use_type_invariant(&signed_sap.value);
            signed_sap.value.lemma_wf();
        }
        let mut prefix_map = self.prefix_map.duplicate();
        let outcome = prefix_map.verify_with_chain_and_update(
            signed_sap.clone(),
            proof_chain,
            &self.chain,
        );
        let stored = match outcome {
            Ok(stored) => stored,
            Err(_) => false,
        };
        if !stored {
            return Ok(false);
        }
        let section_key = signed_sap.section_key();
        // a chain holds its last key, so the joined chains will hold the authority's key
        let _ = chain_last_key(proof_chain);
        let mut chains = chain_clone(&self.all_sections_chains);
        match chain_join(&mut chains, chain_clone(proof_chain)) {
            Ok(()) => {},
            Err(kind) => {
                return Err(NodeError::Chain(kind));
            },
        }
        if !chain_self_verify(&chains) {
            return Err(NodeError::UntrustedProofChain);
        }
        let section_chain = match chain_get_proof_chain(&chains, &self.genesis_key, &section_key) {
            Ok(section_chain) => section_chain,
            Err(kind) => {
                return Err(NodeError::Chain(kind));
            },
        };
        self.prefix_map = prefix_map;
        self.all_sections_chains = chains;
        let switch = should_switch(
            signed_sap.prefix().matches(our_name),
            signed_sap.value.contains_elder(our_name),
            section_keys_provider.has_key_share(&section_key),
        );
        if switch {
            self.set_current(signed_sap, section_chain);
        }
        Ok(true)
    }

    /// Takes in a signed authority that comes with a chain of keys, as `update_sap_if_valid`
    /// does, and then, if that did not fail, the new states of members, as `merge_members`
    /// does. Says whether the prefix map stored the authority. Where it fails, nothing has
    /// changed.
    pub fn update_knowledge_if_valid(
        &mut self,
        signed_sap: SignedSap,
        proof_chain: &SecuredLinkedList,
        updated_members: Option<Vec<AuthedNodeState>>,
        our_name: &Name,
        section_keys_provider: &SectionKeysProvider,
    ) -> (r: Result<bool, NodeError>)
        ensures
            final(self).wf(),
            final(self).spec_genesis_key() == old(self).spec_genesis_key(),
            ({
                let sections = old(self).spec_prefix_map().spec_sections();
                let stored = spec_update_outcome(
                    sections,
                    chain_keys(old(self).spec_chain()),
                    signed_sap@,
                    *proof_chain,
                ) == Ok::<bool, NodeError>(true);
                &&& r is Ok ==> final(self).spec_prefix_map().spec_sections() == (if stored {
                    put_section(sections, signed_sap@)
                } else {
                    sections
                })
                &&& r is Err ==> same_authority(*old(self), *final(self)) && same_members(
                    *old(self),
                    *final(self),
                )
                &&& r == (if !stored {
                    Ok::<bool, NodeError>(false)
                } else {
                    match spec_adopt_error(
                        old(self).spec_all_sections_chains(),
                        old(self).spec_genesis_key().bytes@,
                        signed_sap@.value,
                        *proof_chain,
                    ) {
                        Some(e) => Err::<bool, NodeError>(e),
                        None => Ok::<bool, NodeError>(true),
                    }
                })
                &&& !stored ==> same_authority(*old(self), *final(self))
                &&& r is Ok && stored ==> spec_has_key(
                    final(self).spec_all_sections_chains(),
                    signed_sap@.value.section_key(),
                ) && chain_verified(final(self).spec_all_sections_chains()) && chain_path(
                    final(self).spec_all_sections_chains(),
                    old(self).spec_genesis_key().bytes@,
                    signed_sap@.value.section_key(),
                ) is Some
                &&& r is Ok && stored && spec_should_switch(
                    signed_sap@.value,
                    *our_name,
                    section_keys_provider.spec_has_key_share(signed_sap@.value.section_key()),
                ) ==> final(self).spec_signed_sap() == signed_sap@
                &&& r is Ok && !(stored && spec_should_switch(
                    signed_sap@.value,
                    *our_name,
                    section_keys_provider.spec_has_key_share(signed_sap@.value.section_key()),
                )) ==> final(self).spec_signed_sap() == old(self).spec_signed_sap()
                    && final(self).spec_chain() == old(self).spec_chain()
                &&& r is Ok ==> exists|mid: NetworkKnowledge|
                    {
                        &&& same_authority(mid, *final(self))
                        &&& (stored ==> sap_adopted(
                            *old(self),
                            mid,
                            signed_sap@,
                            *proof_chain,
                            *our_name,
                            section_keys_provider.spec_has_key_share(
                                signed_sap@.value.section_key(),
                            ),
                        ))
                        &&& (!stored ==> same_members(*old(self), mid))
                        &&& members_merged(mid, *final(self), updated_members)
                    }
            }),
    {
        let updated = match self.update_sap_if_valid(
            signed_sap,
            proof_chain,
            our_name,
            section_keys_provider,
        ) {
            Ok(updated) => updated,
            Err(e) => {
                return Err(e);
            },
        };
        let ghost mid = *self;
        proof {
            use_type_invariant(&*self);
        }
        match updated_members {
            Some(members) => {
                let _ = self.merge_members(members);
            },
            None => {},
        }
        proof {
            assert(same_authority(mid, *self));
            assert(members_merged(mid, *self, updated_members));
        }
        Ok(updated)
    }

    /// The entry of the prefix map closest to the name, our own section left aside, with the
    /// chain that leads to its key from the genesis key; nothing where there is no such entry
    /// or no such chain.
    pub fn get_closest_or_opposite_signed_sap(&self, name: &Name) -> (r: Option<
        (SignedSap, SecuredLinkedList),
    >)
        ensures
            ({
                let sections = self.spec_prefix_map().spec_sections();
                let k = spec_closest(sections, *name, Some(self.spec_signed_sap().value.prefix));
                match r {
                    Some((signed_sap, proof_chain)) => {
                        &&& 0 <= k < sections.len()
                        &&& sections[k] == signed_sap@
                        &&& chain_path(
                            self.spec_all_sections_chains(),
                            self.spec_genesis_key().bytes@,
                            signed_sap@.value.section_key(),
                        ) == Some(chain_keys(proof_chain))
                        &&& chain_verified(proof_chain)
                    },
                    None => k < 0 || chain_path(
                        self.spec_all_sections_chains(),
                        self.spec_genesis_key().bytes@,
                        sections[k].value.section_key(),
                    ) is None,
                }
            }),
    {
        proof {
            use_type_invariant(self);
        }
        let prefix = self.signed_sap.prefix();
        match self.prefix_map.closest_or_opposite(name, Some(&prefix)) {
            Some(signed_sap) => {
                let key = signed_sap.section_key();
                match chain_get_proof_chain(&self.all_sections_chains, &self.genesis_key, &key) {
                    Ok(proof_chain) => Some((signed_sap, proof_chain)),
                    Err(_) => None,
                }
            },
            None => None,
        }
    }

    /// Takes over the chain, the authority and the members of the section that the node was
    /// moved to. The knowledge to take over from must be of the same network. Of the states
    /// that the node held, those stay that were signed with a key of the new chain.
    pub fn relocated_to(&mut self, new_network_knowledge: &NetworkKnowledge) -> (r: Result<
        (),
        NodeError,
    >)
        ensures
            final(self).wf(),
            final(self).spec_genesis_key() == old(self).spec_genesis_key(),
            final(self).spec_prefix_map() == old(self).spec_prefix_map(),
            final(self).spec_all_sections_chains() == old(self).spec_all_sections_chains(),
            match r {
                Ok(()) => {
                    &&& new_network_knowledge.spec_genesis_key() == old(self).spec_genesis_key()
                    &&& final(self).spec_chain() == new_network_knowledge.spec_chain()
                    &&& final(self).spec_signed_sap() == new_network_knowledge.spec_signed_sap()
                    &&& ({
                        let signed = |n: Name, s: AuthedNodeState|
                            spec_has_key(
                                new_network_knowledge.spec_chain(),
                                s.sig.public_key.bytes@,
                            );
                        let (members, archive, changed) = spec_merge(
                            map_filter(old(self).spec_section_peers().spec_members(), signed),
                            map_filter(old(self).spec_section_peers().spec_archive(), signed),
                            new_network_knowledge.spec_chain(),
                            new_network_knowledge.spec_section_peers().spec_member_list(),
                        );
                        &&& final(self).spec_section_peers().spec_members() == map_filter(
                            members,
                            |n: Name, s: AuthedNodeState|
                                new_network_knowledge.spec_signed_sap().value.prefix.spec_matches(
                                    &n,
                                ),
                        )
                        &&& final(self).spec_section_peers().spec_archive() == archive
                    })
                },
                Err(e) => {
                    &&& new_network_knowledge.spec_genesis_key() != old(self).spec_genesis_key()
                    &&& e == NodeError::InvalidGenesisKey(new_network_knowledge.spec_genesis_key())
                    &&& same_authority(*old(self), *final(self))
                    &&& same_members(*old(self), *final(self))
                },
            },
    {
        proof {
            use_type_invariant(&*self);
            use_type_invariant(new_network_knowledge);
        }
        if !new_network_knowledge.genesis_key.same(&self.genesis_key) {
            return Err(NodeError::InvalidGenesisKey(new_network_knowledge.genesis_key));
        }
        let genesis_key = self.genesis_key;
        let (mut peers, prefix_map, chains) = self.take_parts();
        peers.prune_members(&new_network_knowledge.chain);
        peers.prune_members_archive(&new_network_knowledge.chain);
        *self = NetworkKnowledge {
            genesis_key,
            chain: new_network_knowledge.section_chain(),
            signed_sap: new_network_knowledge.section_signed_authority_provider(),
            section_peers: peers,
            prefix_map,
            all_sections_chains: chains,
        };
        let _ = self.merge_members(new_network_knowledge.section_signed_members());
        Ok(())
    }

    /// The two sets of elders that a split of the section would want: for our half and for
    /// the other. Nothing where the section has fewer elders than it aims at, or where
    /// `get_split_info` finds that it cannot split.
    pub fn try_split(&self, our_name: &Name, excluded_names: &Vec<Name>) -> (r: Option<
        (ElderCandidates, ElderCandidates),
    >)
        ensures
            ({
                let sap = self.spec_signed_sap().value;
                let members = self.spec_section_peers().spec_member_list();
                let info = spec_split_info(sap.prefix, members, *our_name, excluded_names@);
                match r {
                    Some((ours, other)) => {
                        &&& sap.elders.len() >= ELDER_COUNT
                        &&& info matches Some((bit, _, _))
                        &&& ours.spec_prefix()@ == sap.prefix@.push(bit)
                        &&& other.spec_prefix()@ == sap.prefix@.push(!bit)
                        &&& spec_proposes(
                            ours.spec_elders(),
                            members,
                            sap.elders,
                            excluded_names@,
                            Some(ours.spec_prefix()),
                        )
                        &&& spec_proposes(
                            other.spec_elders(),
                            members,
                            sap.elders,
                            excluded_names@,
                            Some(other.spec_prefix()),
                        )
                    },
                    None => sap.elders.len() < ELDER_COUNT || info is None,
                }
            }),
    {
        proof {
            use_type_invariant(self);
            use_type_invariant(&self.section_peers);
        }
        if self.signed_sap.value.elder_count() < ELDER_COUNT {
            return None;
        }
        let (next_bit, _, _) = match self.get_split_info(our_name, excluded_names) {
            Some(info) => info,
            None => {
                return None;
            },
        };
        let members = self.section_peers.members();
        let prefix = self.signed_sap.prefix();
        let our_prefix = prefix.pushed(next_bit);
        let our_elders = elder_candidates(
            &members,
            ELDER_COUNT,
            &self.signed_sap.value,
            excluded_names,
            Some(&our_prefix),
        );
        let other_prefix = prefix.pushed(!next_bit);
        let other_elders = elder_candidates(
            &members,
            ELDER_COUNT,
            &self.signed_sap.value,
            excluded_names,
            Some(&other_prefix),
        );
        let ours = ElderCandidates::new(our_prefix, peers_of(&our_elders));
        let other = ElderCandidates::new(other_prefix, peers_of(&other_elders));
        Some((ours, other))
    }

    /// The sets of elders that the section should change to: two where it can split; one
    /// where the members that rank best are not the current elders, unless they are fewer
    /// than the current elders or than a supermajority of them; else none. Members whose
    /// names are listed are left out.
    pub fn promote_and_demote_elders(&self, our_name: &Name, excluded_names: &Vec<Name>) -> (r: Vec<
        ElderCandidates,
    >)
        ensures
            ({
                let sap = self.spec_signed_sap().value;
                let members = self.spec_section_peers().spec_member_list();
                let info = spec_split_info(sap.prefix, members, *our_name, excluded_names@);
                if sap.elders.len() >= ELDER_COUNT && info is Some {
                    &&& r@.len() == 2
                    &&& r@[0].spec_prefix()@ == sap.prefix@.push(spec_split_bit(info))
                    &&& r@[1].spec_prefix()@ == sap.prefix@.push(!spec_split_bit(info))
                    &&& spec_proposes(
                        r@[0].spec_elders(),
                        members,
                        sap.elders,
                        excluded_names@,
                        Some(r@[0].spec_prefix()),
                    )
                    &&& spec_proposes(
                        r@[1].spec_elders(),
                        members,
                        sap.elders,
                        excluded_names@,
                        Some(r@[1].spec_prefix()),
                    )
                } else {
                    exists|elders: Seq<Peer>|
                        {
                            &&& peers_sorted(elders)
                            &&& spec_proposes(elders, members, sap.elders, excluded_names@, None)
                            &&& if spec_names(elders) == spec_names(sap.elders) || elders.len() < 1
                                + sap.elders.len() * 2 / 3 || elders.len() < sap.elders.len() {
                                r@.len() == 0
                            } else {
                                r@.len() == 1 && r@[0].spec_prefix() == sap.prefix && r@[0].spec_elders()
                                    == elders
                            }
                        }
                }
            }),
    {
        proof {
            use_type_invariant(self);
            use_type_invariant(&self.section_peers);
        }
        let mut sets: Vec<ElderCandidates> = Vec::new();
        match self.try_split(our_name, excluded_names) {
            Some((ours, other)) => {
                sets.push(ours);
                sets.push(other);
                return sets;
            },
            None => {},
        }
        let members = self.section_peers.members();
        let expected = elder_candidates(
            &members,
            ELDER_COUNT,
            &self.signed_sap.value,
            excluded_names,
            None,
        );
        let candidates = ElderCandidates::new(self.signed_sap.prefix(), peers_of(&expected));
        let expected_peers = candidates.elders();
        let current = self.signed_sap.value.elders();
        let same = same_names(&expected_peers, current);
        if same {
            sets
        } else if expected_peers.len() < supermajority(current.len()) {
            sets
        } else if expected_peers.len() < current.len() {
            sets
        } else {
            sets.push(candidates);
            sets
        }
    }

    /// Whether the section could split, and how: the bit of our name that follows the
    /// section's prefix, and how many of the members that are not left out would go to our
    /// side and to the other. Nothing where the prefix cannot grow or a side would have fewer
    /// members than a section wants.
    pub fn get_split_info(&self, our_name: &Name, excluded_names: &Vec<Name>) -> (r: Option<
        (bool, usize, usize),
    >)
        ensures
            match r {
                Some((bit, ours, siblings)) => spec_split_info(
                    self.spec_signed_sap().value.prefix,
                    self.spec_section_peers().spec_member_list(),
                    *our_name,
                    excluded_names@,
                ) == Some((bit, ours as nat, siblings as nat)),
                None => spec_split_info(
                    self.spec_signed_sap().value.prefix,
                    self.spec_section_peers().spec_member_list(),
                    *our_name,
                    excluded_names@,
                ) is None,
            },
    {
        let bit_count = self.signed_sap.prefix().bit_count();
        if bit_count > 255 {
            return None;
        }
        let index: u8 = bit_count as u8;
        let next_bit = our_name.bit(index);
        let members = self.section_peers.members();
        let mut ours: usize = 0;
        let mut siblings: usize = 0;
        let mut i: usize = 0;
        while i < members.len()
            invariant
                i <= members.len(),
                ours + siblings <= i,
                ours == spec_count_side(
                    members@.take(i as int),
                    excluded_names@,
                    index as int,
                    next_bit,
                ),
                siblings == spec_count_side(
                    members@.take(i as int),
                    excluded_names@,
                    index as int,
                    !next_bit,
                ),
            decreases members.len() - i,
        {
            proof {
                assert(members@.take(i + 1).drop_last() == members@.take(i as int));
            }
            let name = members[i].value.name;
            if !contains_name(excluded_names, &name) {
                if name.bit(index) == next_bit {
                    ours += 1;
                } else {
                    siblings += 1;
                }
            }
            i += 1;
        }
        proof {
            assert(members@.take(members.len() as int) == members@);
        }
        if ours < RECOMMENDED_SECTION_SIZE || siblings < RECOMMENDED_SECTION_SIZE {
            return None;
        }
        Some((next_bit, ours, siblings))
    }
}

/// The genesis key of what a node knows is the root of its section chain and the genesis key
/// of its prefix map; the section chain ends in the key of the section's current authority.
pub proof fn lemma_one_genesis_key(knowledge: NetworkKnowledge)
    requires
        knowledge.wf(),
    ensures
        knowledge.spec_prefix_map().spec_genesis_key() == knowledge.spec_genesis_key(),
        knowledge.spec_genesis_key().bytes@ == spec_root(knowledge.spec_chain()),
        knowledge.spec_signed_sap().value.section_key() == spec_last(knowledge.spec_chain()),
{
    knowledge.lemma_wf();
}

/// The chains that a node holds verify: its section chain, and the chains of all sections
/// that it has gathered.
pub proof fn lemma_chains_verify(knowledge: NetworkKnowledge)
    requires
        knowledge.wf(),
    ensures
        chain_verified(knowledge.spec_chain()),
        chain_verified(knowledge.spec_all_sections_chains()),
{
    knowledge.lemma_wf();
}

/// Once an authority that the prefix map stored has been taken in, the gathered chains hold
/// its key beside the genesis key and lead from the genesis key to it; and where the node
/// was to make the authority its section's current one, they do so by the keys of the
/// section chain.
pub proof fn lemma_adopted_key_in_chains(
    before: NetworkKnowledge,
    after: NetworkKnowledge,
    new: SignedSapView,
    proof_chain: SecuredLinkedList,
    our_name: Name,
    have_key_share: bool,
)
    requires
        after.wf(),
        after.spec_genesis_key() == before.spec_genesis_key(),
        sap_adopted(before, after, new, proof_chain, our_name, have_key_share),
    ensures
        spec_has_key(after.spec_all_sections_chains(), after.spec_genesis_key().bytes@),
        spec_has_key(after.spec_all_sections_chains(), new.value.section_key()),
        chain_verified(after.spec_all_sections_chains()),
        chain_path(
            after.spec_all_sections_chains(),
            after.spec_genesis_key().bytes@,
            new.value.section_key(),
        ) is Some,
        spec_should_switch(new.value, our_name, have_key_share) ==> chain_path(
            after.spec_all_sections_chains(),
            after.spec_genesis_key().bytes@,
            new.value.section_key(),
        ) == Some(chain_keys(after.spec_chain())),
{
    after.lemma_wf();
}

/// Why the first node of a network cannot set out with a secret key set, in the order in
/// which it finds out; nothing where it can. The key set that belongs to the secret one must
/// have the form of a key set; the node's share, with index 0, must make a signature that
/// verifies under the authority of the first section; the first key of the key set must be
/// a key; and the share must make a signature that verifies under the node's own state as a
/// member.
pub open spec fn spec_first_node_error(peer: Peer, secret: blsttc::SecretKeySet) -> Option<
    NodeError,
> {
    let keys = bls_public_keys(secret);
    let share = bls_secret_share(secret, 0);
    let authority = spec_encode_sap(Prefix::spec_empty(), keys, seq![peer]);
    let state = spec_encode_node_state(spec_first_state(peer));
    if !spec_key_set_bytes(keys) {
        Some(NodeError::InvalidPayload)
    } else {
        match spec_first_sig(keys, share, authority) {
            None => Some(NodeError::InvalidSignatureShare),
            Some(signature) => if !bls_key_valid(spec_public_key(keys)) {
                Some(NodeError::UntrustedProofChain)
            } else if spec_first_sig(keys, share, state) is None {
                Some(NodeError::InvalidSignatureShare)
            } else {
                None
            },
        }
    }
}

/// A share of the secret key of a section, with the key set it belongs to and the index of
/// the elder that holds it.
pub struct SectionKeyShare {
    pub public_key_set: PublicKeySet,
    pub index: usize,
    pub secret_key_share: blsttc::SecretKeyShare,
}

/// The signature that the share of one elder alone makes of a payload: what the share that
/// the elder signs with index 0 combines into by itself, if it does and the signature
/// verifies for the payload under the key set's public key. The zero share signs nothing.
pub open spec fn spec_first_sig(key_set: Seq<u8>, key: blsttc::SecretKeyShare, payload: Seq<u8>) -> Option<
    Seq<u8>,
> {
    if bls_share_zero(key) {
        None
    } else {
        match bls_combined(key_set, seq![(0u64, bls_share_signed(key, payload))]) {
            Some(signature) => if bls_verifies(spec_public_key(key_set), signature, payload) {
                Some(signature)
            } else {
                None
            },
            None => None,
        }
    }
}

/// Signs the payload alone, as the only elder of a section whose key set has the threshold
/// zero. The signature is what the share combines into by itself, and it verifies for the
/// payload under the key set's public key; where there is no such signature, the share is
/// refused.
pub fn create_first_sig(
    pk_set: &PublicKeySet,
    sk_share: &blsttc::SecretKeyShare,
    payload: &[u8],
) -> (r: Result<Signed, NodeError>)
    ensures
        match spec_first_sig(pk_set@, *sk_share, payload@) {
            Some(signature) => {
                &&& r matches Ok(signed)
                &&& signed.public_key.bytes@ == spec_public_key(pk_set@)
                &&& signed.signature.bytes@ == signature
                &&& bls_verifies(signed.public_key.bytes@, signed.signature.bytes@, payload@)
            },
            None => r == Err::<Signed, NodeError>(NodeError::InvalidSignatureShare),
        },
{
    if share_is_zero(sk_share) {
        return Err(NodeError::InvalidSignatureShare);
    }
    let share = sign_share(sk_share, payload);
    let mut shares: Vec<(u64, SignatureShare)> = Vec::new();
    shares.push((0u64, share));
    proof {
        use_type_invariant(pk_set);
        assert(shares_view(shares@) =~= seq![(0u64, share.bytes@)]);
    }
    match combine_shares(pk_set, &shares) {
        Some(signature) => {
            let signed = Signed { public_key: pk_set.public_key(), signature };
            if signed.verify(payload) {
                Ok(signed)
            } else {
                Err(NodeError::InvalidSignatureShare)
            }
        },
        None => Err(NodeError::InvalidSignatureShare),
    }
}

/// Whether the authority is that of the section that one node makes up alone: the prefix
/// is empty, the key set is the given one, and the node is the only elder.
pub open spec fn spec_first_authority(sap: SapView, key_set: Seq<u8>, peer: Peer) -> bool {
    &&& sap.wf()
    &&& sap.prefix == Prefix::spec_empty()
    &&& sap.prefix@ == Seq::<bool>::empty()
    &&& sap.key_set == key_set
    &&& sap.elders == seq![peer]
}

/// The authority of the section that the first node of a network makes up alone, signed by
/// that node. Fails where the node's share makes no signature.
pub fn create_first_section_authority_provider(
    pk_set: &PublicKeySet,
    sk_share: &blsttc::SecretKeyShare,
    peer: Peer,
) -> (r: Result<SignedSap, NodeError>)
    ensures
        match spec_first_sig(
            pk_set@,
            *sk_share,
            spec_encode_sap(Prefix::spec_empty(), pk_set@, seq![peer]),
        ) {
            Some(signature) => {
                &&& r matches Ok(signed)
                &&& spec_first_authority(signed@.value, pk_set@, peer)
                &&& signed@.sig.public_key.bytes@ == signed@.value.section_key()
                &&& signed@.sig.signature.bytes@ == signature
            },
            None => r == Err::<SignedSap, NodeError>(NodeError::InvalidSignatureShare),
        },
{
    let mut elders: Vec<Peer> = Vec::new();
    elders.push(peer);
    let section_auth = SectionAuthorityProvider::new(elders, Prefix::empty(), pk_set.clone());
    proof {
        let listed = section_auth@.elders;
        assert(crate::sap::last_of_each_name(seq![peer], peer)) by {
            assert(seq![peer][0] == peer);
        }
        assert(listed.contains(peer));
        assert forall|i: int| 0 <= i < listed.len() implies listed[i] == peer by {
            assert(listed.contains(listed[i]));
            assert(crate::sap::last_of_each_name(seq![peer], listed[i]));
        }
        if listed.len() > 1 {
            assert(listed[0].name.spec_lt(&listed[1].name));
            crate::name::lemma_lt_total(peer.name, peer.name);
        }
        assert(listed =~= seq![peer]);
    }
    let payload = section_auth.encode();
    match create_first_sig(pk_set, sk_share, payload.as_slice()) {
        Ok(sig) => Ok(SignedSap::new(section_auth, sig)),
        Err(e) => Err(e),
    }
}

/// The state of the first node as a member of its section: it has joined, and was known
/// under no other name before.
pub open spec fn spec_first_state(peer: Peer) -> NodeState {
    NodeState {
        name: peer.name,
        addr: peer.addr,
        state: MembershipState::Joined,
        previous_name: None,
    }
}

/// Whether the first node is the only member of its section, with the signature under its
/// state, made with the genesis key.
pub open spec fn spec_first_member(knowledge: NetworkKnowledge, peer: Peer, sig: Signed) -> bool {
    let state = AuthedNodeState { value: spec_first_state(peer), sig };
    &&& sig.public_key == knowledge.spec_genesis_key()
    &&& knowledge.spec_section_peers().spec_members() == Map::<Name, AuthedNodeState>::empty().insert(
        peer.name,
        state,
    )
    &&& state.spec_verify(knowledge.spec_chain())
}

/// The side of a split that the node would be on.
pub open spec fn spec_split_bit(info: Option<(bool, nat, nat)>) -> bool {
    match info {
        Some((bit, _, _)) => bit,
        None => false,
    }
}

/// The names of the peers, in their order.
pub open spec fn spec_names(peers: Seq<Peer>) -> Seq<Name> {
    peers.map_values(|p: Peer| p.name)
}

/// Whether the peers are those of the members that are to be elders of the section, or of
/// the part of it that the prefix marks: the `ELDER_COUNT` members that rank best among
/// those that are not left out.
pub open spec fn spec_proposes(
    elders: Seq<Peer>,
    members: Seq<AuthedNodeState>,
    current: Seq<Peer>,
    excluded: Seq<Name>,
    prefix: Option<Prefix>,
) -> bool {
    exists|chosen: Seq<AuthedNodeState>|
        {
            &&& spec_is_choice(members, ELDER_COUNT as int, current, excluded, prefix, chosen)
            &&& forall|q: Peer| #[trigger]
                elders.contains(q) <==> last_of_each_name(spec_peers_of(chosen), q)
        }
}

/// Whether two lists of peers name the same peers in the same order.
pub fn same_names(a: &Vec<Peer>, b: &Vec<Peer>) -> (same: bool)
    ensures
        same == (spec_names(a@) == spec_names(b@)),
{
    if a.len() != b.len() {
        assert(spec_names(a@).len() != spec_names(b@).len());
        return false;
    }
    let mut i: usize = 0;
    while i < a.len()
        invariant
            i <= a.len(),
            a.len() == b.len(),
            forall|k: int| 0 <= k < i ==> a@[k].name == b@[k].name,
        decreases a.len() - i,
    {
        if !a[i].name.same(&b[i].name) {
            assert(spec_names(a@)[i as int] != spec_names(b@)[i as int]);
            return false;
        }
        i += 1;
    }
    assert(spec_names(a@) =~= spec_names(b@));
    true
}

/// Whether one of the names is the given one.
pub fn contains_name(names: &Vec<Name>, name: &Name) -> (found: bool)
    ensures
        found == names@.contains(*name),
{
    let mut i: usize = 0;
    while i < names.len()
        invariant
            i <= names.len(),
            forall|k: int| 0 <= k < i ==> names@[k] != *name,
        decreases names.len() - i,
    {
        if names[i].same(name) {
            return true;
        }
        i += 1;
    }
    false
}

/// How many of the members that are not left out have the given bit at the given place of
/// their name.
pub open spec fn spec_count_side(
    members: Seq<AuthedNodeState>,
    excluded: Seq<Name>,
    index: int,
    bit: bool,
) -> nat
    decreases members.len(),
{
    if members.len() == 0 {
        0
    } else {
        let name = members.last().value.name;
        spec_count_side(members.drop_last(), excluded, index, bit) + (if !excluded.contains(name)
            && name.spec_bit(index) == bit {
            1nat
        } else {
            0nat
        })
    }
}

/// Whether and how a section with the given prefix and members could split, seen from the
/// node with the given name.
pub open spec fn spec_split_info(
    prefix: Prefix,
    members: Seq<AuthedNodeState>,
    our_name: Name,
    excluded: Seq<Name>,
) -> Option<(bool, nat, nat)> {
    if prefix@.len() > 255 {
        None
    } else {
        let index = prefix@.len() as int;
        let bit = our_name.spec_bit(index);
        let ours = spec_count_side(members, excluded, index, bit);
        let siblings = spec_count_side(members, excluded, index, !bit);
        if ours < RECOMMENDED_SECTION_SIZE || siblings < RECOMMENDED_SECTION_SIZE {
            None
        } else {
            Some((bit, ours, siblings))
        }
    }
}

/// Whether every state of the map is signed with a key of the chain and verifies under it.
pub open spec fn states_verify(states: Map<Name, AuthedNodeState>, chain: SecuredLinkedList) -> bool {
    forall|n: Name| states.contains_key(n) ==> (#[trigger] states[n]).spec_verify(chain)
}

/// Whether both know the same of the node's own section's authority and chain, of the other
/// sections and of the chains.
pub open spec fn same_authority(a: NetworkKnowledge, b: NetworkKnowledge) -> bool {
    &&& a.spec_genesis_key() == b.spec_genesis_key()
    &&& a.spec_chain() == b.spec_chain()
    &&& a.spec_signed_sap() == b.spec_signed_sap()
    &&& a.spec_prefix_map() == b.spec_prefix_map()
    &&& a.spec_all_sections_chains() == b.spec_all_sections_chains()
}

/// Whether both know the same members and have the same archive.
pub open spec fn same_members(a: NetworkKnowledge, b: NetworkKnowledge) -> bool {
    &&& a.spec_section_peers().spec_members() == b.spec_section_peers().spec_members()
    &&& a.spec_section_peers().spec_archive() == b.spec_section_peers().spec_archive()
}

/// What a switch to a new authority makes of the members and the archive: the members stay
/// whose names the new prefix matches and whose states were signed with a key of the new
/// section chain, and of the archive the states that were signed with a key of that chain.
pub open spec fn switched_members(before: NetworkKnowledge, after: NetworkKnowledge) -> bool {
    &&& after.spec_section_peers().spec_members() == map_filter(
        map_filter(
            before.spec_section_peers().spec_members(),
            |n: Name, s: AuthedNodeState| after.spec_signed_sap().value.prefix.spec_matches(&n),
        ),
        |n: Name, s: AuthedNodeState| spec_has_key(after.spec_chain(), s.sig.public_key.bytes@),
    )
    &&& after.spec_section_peers().spec_archive() == map_filter(
        before.spec_section_peers().spec_archive(),
        |n: Name, s: AuthedNodeState| spec_has_key(after.spec_chain(), s.sig.public_key.bytes@),
    )
}

/// What the states of members, taken in one after the other, make of the members and the
/// archive, and whether any of them changed anything. A state counts only if it is signed
/// with a key of the chain.
pub open spec fn spec_merge(
    members: Map<Name, AuthedNodeState>,
    archive: Map<Name, AuthedNodeState>,
    chain: SecuredLinkedList,
    states: Seq<AuthedNodeState>,
) -> (Map<Name, AuthedNodeState>, Map<Name, AuthedNodeState>, bool)
    decreases states.len(),
{
    if states.len() == 0 {
        (members, archive, false)
    } else {
        let (m, a, changed) = spec_merge(members, archive, chain, states.drop_last());
        let state = states.last();
        if state.spec_verify(chain) {
            let (m2, a2, c2) = spec_update(m, a, state);
            (m2, a2, changed || c2)
        } else {
            (m, a, changed)
        }
    }
}

/// Whether `after` has the members and the archive that merging the states into `before`
/// gives; with no states, the same as before.
pub open spec fn members_merged(
    before: NetworkKnowledge,
    after: NetworkKnowledge,
    states: Option<Vec<AuthedNodeState>>,
) -> bool {
    match states {
        Some(states) => {
            let (members, archive, changed) = spec_merge(
                before.spec_section_peers().spec_members(),
                before.spec_section_peers().spec_archive(),
                before.spec_chain(),
                states@,
            );
            &&& after.spec_section_peers().spec_members() == map_filter(
                members,
                |n: Name, s: AuthedNodeState| before.spec_signed_sap().value.prefix.spec_matches(&n),
            )
            &&& after.spec_section_peers().spec_archive() == archive
        },
        None => same_members(before, after),
    }
}

/// Whether a node is to make a new authority of its section its current one: the prefix
/// must match its name, and it must either be no elder under that authority or hold a share
/// of the authority's key.
pub open spec fn spec_should_switch(new: SapView, our_name: Name, have_key_share: bool) -> bool {
    spec_switch(
        new.prefix.spec_matches(&our_name),
        has_name(new.elders, our_name),
        have_key_share,
    )
}

/// Whether a node is to make a new authority of its section its current one, given whether
/// the authority's prefix matches the node's name, whether the node is an elder under the
/// authority, and whether the node holds a share of the authority's key.
pub open spec fn spec_switch(prefix_matches: bool, elder_under_new: bool, have_key_share: bool) -> bool {
    prefix_matches && (!elder_under_new || have_key_share)
}

/// Whether a node is to make a new authority of its section its current one.
pub fn should_switch(prefix_matches: bool, elder_under_new: bool, have_key_share: bool) -> (r: bool)
    ensures
        r == spec_switch(prefix_matches, elder_under_new, have_key_share),
{
    prefix_matches && (!elder_under_new || have_key_share)
}

/// Why an authority that the prefix map has stored cannot be taken in all the way, in the
/// order in which this is found; nothing where it can. The chain that came with it must
/// join the gathered chains; what they become must verify; and they must lead from the
/// genesis key to the authority's key.
pub open spec fn spec_adopt_error(
    chains: SecuredLinkedList,
    genesis: Seq<u8>,
    new: SapView,
    proof_chain: SecuredLinkedList,
) -> Option<NodeError> {
    let joined = chain_joined(chains, proof_chain);
    if !spec_joinable(chains, proof_chain) {
        Some(NodeError::Chain(ChainError::InvalidOperation))
    } else if !chain_verified(joined) {
        Some(NodeError::UntrustedProofChain)
    } else if chain_path(joined, genesis, new.section_key()) is None {
        Some(NodeError::Chain(ChainError::SubChainNotFound))
    } else {
        None
    }
}

/// Whether two chains can be joined: one holds the root of the other.
pub open spec fn spec_joinable(chain: SecuredLinkedList, other: SecuredLinkedList) -> bool {
    spec_has_key(chain, spec_root(other)) || spec_has_key(other, spec_root(chain))
}

/// Whether the prefix map holds, for the prefix, an authority with the key, and the gathered
/// chains lead from the genesis key to that key.
pub open spec fn spec_can_switch(knowledge: NetworkKnowledge, key: Seq<u8>, prefix: Prefix) -> bool {
    let sections = knowledge.spec_prefix_map().spec_sections();
    &&& has_prefix(sections, prefix)
    &&& sections[index_of_prefix(sections, prefix)].value.section_key() == key
    &&& chain_path(
        knowledge.spec_all_sections_chains(),
        knowledge.spec_genesis_key().bytes@,
        key,
    ) is Some
}

/// What holds once an authority that the prefix map stored has been taken in: the gathered
/// chains hold every key they held, every key of the chain that came with the authority, and
/// so the authority's key, to which they lead from the genesis key; and the authority has
/// become the section's current one, with the chain that leads to its key from the genesis
/// key, exactly where the node is to switch.
pub open spec fn sap_adopted(
    before: NetworkKnowledge,
    after: NetworkKnowledge,
    new: SignedSapView,
    proof_chain: SecuredLinkedList,
    our_name: Name,
    have_key_share: bool,
) -> bool {
    &&& spec_has_key(after.spec_all_sections_chains(), new.value.section_key())
    &&& chain_path(
        after.spec_all_sections_chains(),
        before.spec_genesis_key().bytes@,
        new.value.section_key(),
    ) is Some
    &&& forall|k: Seq<u8>| #[trigger]
        spec_has_key(after.spec_all_sections_chains(), k) <==> spec_has_key(
            before.spec_all_sections_chains(),
            k,
        ) || spec_has_key(proof_chain, k)
    &&& if spec_should_switch(new.value, our_name, have_key_share) {
        &&& after.spec_signed_sap() == new
        &&& chain_path(
            after.spec_all_sections_chains(),
            before.spec_genesis_key().bytes@,
            new.value.section_key(),
        ) == Some(chain_keys(after.spec_chain()))
        &&& switched_members(before, after)
    } else {
        &&& after.spec_signed_sap() == before.spec_signed_sap()
        &&& after.spec_chain() == before.spec_chain()
        &&& same_members(before, after)
    }
}

} // verus!
