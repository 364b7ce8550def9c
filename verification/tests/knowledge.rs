use secured_linked_list::SecuredLinkedList;
use section_core::bls::{PublicKey, PublicKeySet, Signature};
use section_core::chain::ChainError;
use section_core::error::NodeError;
use section_core::knowledge::{NetworkKnowledge, SectionKeysProvider, RECOMMENDED_SECTION_SIZE};
use section_core::name::{Name, Prefix};
use section_core::node_state::{AuthedNodeState, MembershipState, NodeState};
use section_core::prefix_map::NetworkPrefixMap;
use section_core::sap::{Addr, Ip, Peer, SectionAuthorityProvider, Signed, SignedSap};

struct Section {
    sk_set: blsttc::SecretKeySet,
    sap: SectionAuthorityProvider,
}

fn k_name(first: u8, second: u8, age: u8) -> Name {
    let mut bytes = [0u8; 32];
    bytes[0] = first;
    bytes[1] = second;
    bytes[31] = age;
    Name { bytes }
}

fn k_addr(port: u16) -> Addr {
    Addr { ip: Ip::V6([0, 0, 0, 0, 0, 0, 0, 0, 0, 0, 0, 0, 0, 0, 0, 1]), port }
}

fn k_key(pk: blsttc::PublicKey) -> PublicKey {
    PublicKey { bytes: pk.to_bytes() }
}

fn k_section(prefix: Prefix, first: u8) -> Section {
    let sk_set = blsttc::SecretKeySet::random(2, &mut rand::thread_rng());
    let elders = (0..4u8).map(|i| Peer::new(k_name(first, i + 1, 100), k_addr(100 + i as u16))).collect();
    let key_set = PublicKeySet::from_bytes(sk_set.public_keys().to_bytes()).expect("a key set");
    Section { sap: SectionAuthorityProvider::new(elders, prefix, key_set), sk_set }
}

impl Section {
    fn key(&self) -> blsttc::PublicKey {
        self.sk_set.public_keys().public_key()
    }

    fn sign(&self, bytes: &[u8]) -> Signed {
        Signed {
            public_key: k_key(self.key()),
            signature: Signature { bytes: self.sk_set.secret_key().sign(bytes).to_bytes() },
        }
    }

    fn signed_sap(&self) -> SignedSap {
        SignedSap::new(self.sap.clone(), self.sign(&self.sap.encode()))
    }

    fn vouch(&self, state: NodeState) -> AuthedNodeState {
        AuthedNodeState::new(state, self.sign(&state.encode()))
    }

    fn link(&self, chain: &mut SecuredLinkedList, next: &Section) {
        let sig = self.sk_set.secret_key().sign(bincode::serialize(&next.key()).expect("bytes"));
        chain.insert(&self.key(), next.key(), sig).expect("a link");
    }
}

fn first_knowledge(first: &Section) -> NetworkKnowledge {
    NetworkKnowledge::new(
        k_key(first.key()),
        SecuredLinkedList::new(first.key()),
        first.signed_sap(),
        None,
    )
    .expect("knowledge")
}

fn member(first: u8, second: u8) -> NodeState {
    NodeState::joined(Peer::new(k_name(first, second, 6), k_addr(second as u16)), None)
}

#[test]
fn new_knowledge_holds_what_it_was_given() {
    let genesis = k_section(Prefix::empty(), 0x10);
    let knowledge = first_knowledge(&genesis);
    assert_eq!(knowledge.genesis_key(), k_key(genesis.key()));
    assert_eq!(knowledge.prefix_map().genesis_key(), k_key(genesis.key()));
    assert_eq!(knowledge.section_key(), k_key(genesis.key()));
    assert_eq!(knowledge.chain_len(), 1);
    assert!(knowledge.has_chain_key(&k_key(genesis.key())));
    assert!(knowledge.section_chain().self_verify());
    assert!(knowledge.all_sections_chains().self_verify());
    assert_eq!(knowledge.section_chain().root_key(), &genesis.key());
    assert!(knowledge.authority_provider().same(&genesis.sap));
    assert!(knowledge.section_signed_authority_provider().self_verify());
    assert_eq!(knowledge.prefix(), Prefix::empty());
    assert_eq!(knowledge.elders(), genesis.sap.elders_vec());
    assert!(knowledge.is_elder(&k_name(0x10, 1, 100)));
    assert!(!knowledge.is_elder(&k_name(0x10, 9, 100)));
    assert_eq!(knowledge.section_size(), 0);
    // the prefix map took the authority in
    assert_eq!(knowledge.prefix_map().len(), 1);
    assert!(knowledge.section_by_name(&k_name(0xff, 0, 5)).expect("a section").same(&genesis.sap));
}

#[test]
fn new_knowledge_refuses_what_does_not_fit() {
    let genesis = k_section(Prefix::empty(), 0x10);
    let other = k_section(Prefix::empty(), 0x20);
    let chain = SecuredLinkedList::new(genesis.key());

    // the chain does not start at the genesis key
    let r = NetworkKnowledge::new(k_key(other.key()), chain.clone(), genesis.signed_sap(), None);
    assert!(matches!(r, Err(NodeError::UntrustedProofChain)));

    // the authority's key is not the last key of the chain
    let r = NetworkKnowledge::new(k_key(genesis.key()), chain.clone(), other.signed_sap(), None);
    assert!(matches!(r, Err(NodeError::UntrustedSectionAuthProvider)));

    // the signature is not good for the authority
    let forged = SignedSap::new(genesis.sap.clone(), genesis.sign(b"something else"));
    let r = NetworkKnowledge::new(k_key(genesis.key()), chain.clone(), forged, None);
    assert!(matches!(r, Err(NodeError::UntrustedSectionAuthProvider)));

    // the signature is made with another key than the authority names
    let mut longer = SecuredLinkedList::new(genesis.key());
    genesis.link(&mut longer, &other);
    let misnamed = SignedSap::new(genesis.sap.clone(), other.sign(&genesis.sap.encode()));
    let r = NetworkKnowledge::new(k_key(genesis.key()), longer, misnamed, None);
    assert!(matches!(r, Err(NodeError::UntrustedSectionAuthProvider)));

    // the prefix map is of another network
    let foreign = NetworkPrefixMap::new(k_key(other.key()));
    let r = NetworkKnowledge::new(k_key(genesis.key()), chain, genesis.signed_sap(), Some(foreign));
    match r {
        Err(NodeError::InvalidGenesisKey(key)) => assert_eq!(key, k_key(other.key())),
        other => panic!("{:?}", other),
    }
}

#[test]
fn an_adult_follows_its_section_to_a_new_key() {
    let genesis = k_section(Prefix::empty(), 0x10);
    let next = k_section(Prefix::empty(), 0x10);
    let mut knowledge = first_knowledge(&genesis);
    let our_name = k_name(0x77, 7, 6);
    let provider = SectionKeysProvider::new();

    let mut proof_chain = SecuredLinkedList::new(genesis.key());
    genesis.link(&mut proof_chain, &next);

    let r = knowledge.update_knowledge_if_valid(next.signed_sap(), &proof_chain, None, &our_name, &provider);
    assert!(matches!(r, Ok(true)));
    assert_eq!(knowledge.section_key(), k_key(next.key()));
    assert_eq!(knowledge.chain_len(), 2);
    assert!(knowledge.has_chain_key(&k_key(genesis.key())));
    assert!(knowledge.has_chain_key(&k_key(next.key())));
    // the new key can be reached from the genesis key within the gathered chains
    let dag = knowledge.all_sections_chains();
    assert!(dag.self_verify());
    assert!(dag.get_proof_chain(&genesis.key(), &next.key()).is_ok());
    assert_eq!(knowledge.genesis_key(), k_key(genesis.key()));
    assert_eq!(knowledge.section_chain().root_key(), &genesis.key());
    assert_eq!(knowledge.section_chain().last_key(), &next.key());
    let to_current = knowledge.get_proof_chain_to_current(&k_key(genesis.key())).expect("a chain");
    assert_eq!(to_current.len(), 2);

    // the same again is nothing new
    let r = knowledge.update_knowledge_if_valid(next.signed_sap(), &proof_chain, None, &our_name, &provider);
    assert!(matches!(r, Ok(false)));
    assert_eq!(knowledge.section_key(), k_key(next.key()));
}

#[test]
fn an_elder_switches_only_with_a_share_of_the_key() {
    let genesis = k_section(Prefix::empty(), 0x10);
    let next = k_section(Prefix::empty(), 0x10);
    let our_name = k_name(0x10, 1, 100);
    assert!(next.sap.contains_elder(&our_name));
    let mut proof_chain = SecuredLinkedList::new(genesis.key());
    genesis.link(&mut proof_chain, &next);

    let mut without = first_knowledge(&genesis);
    let r = without.update_knowledge_if_valid(
        next.signed_sap(),
        &proof_chain,
        None,
        &our_name,
        &SectionKeysProvider::new(),
    );
    assert!(matches!(r, Ok(true)));
    assert_eq!(without.section_key(), k_key(genesis.key()));
    assert_eq!(without.chain_len(), 1);
    // the prefix map and the gathered chains know of the new authority all the same
    assert!(without.all_sections_chains().has_key(&next.key()));
    assert!(without.prefix_map().get_signed(&Prefix::empty()).expect("an entry").same(&next.signed_sap()));

    // later, with the share, the switch is made
    assert!(!without.try_update_current_sap(k_key(genesis.key()), &Prefix::empty()));
    assert!(without.try_update_current_sap(k_key(next.key()), &Prefix::empty()));
    assert_eq!(without.section_key(), k_key(next.key()));

    let mut with = first_knowledge(&genesis);
    let mut provider = SectionKeysProvider::new();
    provider.insert(k_key(next.key()));
    assert!(provider.has_key_share(&k_key(next.key())));
    let r = with.update_knowledge_if_valid(next.signed_sap(), &proof_chain, None, &our_name, &provider);
    assert!(matches!(r, Ok(true)));
    assert_eq!(with.section_key(), k_key(next.key()));
}

#[test]
fn an_authority_without_a_trusted_chain_is_not_taken_in() {
    let genesis = k_section(Prefix::empty(), 0x10);
    let stranger = k_section(Prefix::empty(), 0x30);
    let mut knowledge = first_knowledge(&genesis);
    let our_name = k_name(0x77, 7, 6);
    let r = knowledge.update_knowledge_if_valid(
        stranger.signed_sap(),
        &SecuredLinkedList::new(stranger.key()),
        None,
        &our_name,
        &SectionKeysProvider::new(),
    );
    assert!(matches!(r, Ok(false)));
    assert_eq!(knowledge.section_key(), k_key(genesis.key()));
    assert_eq!(knowledge.prefix_map().len(), 1);
    assert!(!knowledge.all_sections_chains().has_key(&stranger.key()));
}

#[test]
fn members_come_and_go_with_signed_states() {
    let genesis = k_section(Prefix::empty(), 0x10);
    let stranger = k_section(Prefix::empty(), 0x30);
    let mut knowledge = first_knowledge(&genesis);

    let alice = member(0x01, 1);
    let bob = member(0x81, 2);
    assert!(knowledge.update_member(genesis.vouch(alice)));
    assert!(!knowledge.update_member(genesis.vouch(alice)));
    // a state signed with a key that the chain does not hold is not taken
    assert!(!knowledge.update_member(stranger.vouch(bob)));
    assert!(knowledge.is_section_member(&alice.name));
    assert!(!knowledge.is_section_member(&bob.name));
    assert_eq!(knowledge.section_size(), 1);
    assert_eq!(knowledge.get_section_member(&alice.name), Some(alice));
    assert_eq!(knowledge.get_section_member(&bob.name), None);

    let merged = knowledge.merge_members(vec![genesis.vouch(bob), stranger.vouch(member(0x02, 3))]);
    assert!(matches!(merged, Ok(true)));
    assert_eq!(knowledge.section_members(), vec![alice, bob]);
    assert_eq!(knowledge.adults(), vec![alice.peer(), bob.peer()]);
    assert_eq!(knowledge.find_member_by_addr(&bob.addr), Some(bob.peer()));
    assert_eq!(knowledge.find_member_by_addr(&k_addr(999)), None);

    // one that leaves goes to the archive and cannot join again
    assert!(knowledge.update_member(genesis.vouch(alice.left())));
    assert!(!knowledge.is_section_member(&alice.name));
    let archived = knowledge.is_either_member_or_archived(&alice.name).expect("archived");
    assert_eq!(archived.value.state, MembershipState::Left);
    assert!(!knowledge.update_member(genesis.vouch(alice)));
    assert_eq!(knowledge.section_size(), 1);
    // what stands in the archive is not overwritten
    assert!(!knowledge.update_member(genesis.vouch(alice.relocated(k_name(0x99, 0, 6)))));
    let archived = knowledge.is_either_member_or_archived(&alice.name).expect("archived");
    assert_eq!(archived.value.state, MembershipState::Left);
    // the last state of a peer that was never seen as a member is archived all the same
    let unseen = member(0x07, 7);
    assert!(knowledge.update_member(genesis.vouch(unseen.left())));
    assert!(!knowledge.update_member(genesis.vouch(unseen)));
    assert!(!knowledge.is_section_member(&unseen.name));

    // one that was moved here is known by its previous name
    let moved = NodeState::joined(Peer::new(k_name(0x03, 3, 7), k_addr(3)), Some(k_name(0xee, 0, 6)));
    assert!(knowledge.update_member(genesis.vouch(moved)));
    assert!(knowledge.is_relocated_to_our_section(&k_name(0xee, 0, 6)));
    assert!(!knowledge.is_relocated_to_our_section(&moved.name));
}

#[test]
fn a_split_drops_the_members_of_the_other_half() {
    let genesis = k_section(Prefix::empty(), 0x10);
    let half = k_section(Prefix::empty().pushed(false), 0x10);
    let mut knowledge = first_knowledge(&genesis);
    let ours = member(0x01, 1);
    let theirs = member(0x81, 2);
    let gone = member(0x02, 3);
    assert!(knowledge.update_member(genesis.vouch(ours)));
    assert!(knowledge.update_member(genesis.vouch(theirs)));
    assert!(knowledge.update_member(genesis.vouch(gone)));
    assert!(knowledge.update_member(genesis.vouch(gone.left())));

    let mut proof_chain = SecuredLinkedList::new(genesis.key());
    genesis.link(&mut proof_chain, &half);
    let r = knowledge.update_knowledge_if_valid(
        half.signed_sap(),
        &proof_chain,
        Some(vec![half.vouch(member(0x05, 5)), half.vouch(member(0x85, 6))]),
        &k_name(0x04, 4, 6),
        &SectionKeysProvider::new(),
    );
    assert!(matches!(r, Ok(true)));
    assert_eq!(knowledge.prefix(), Prefix::empty().pushed(false));
    assert!(knowledge.is_section_member(&ours.name));
    assert!(!knowledge.is_section_member(&theirs.name));
    assert!(knowledge.is_section_member(&k_name(0x05, 5, 6)));
    assert!(!knowledge.is_section_member(&k_name(0x85, 6, 6)));
    // the archived state was signed with a key that the new chain holds: it stays
    assert!(knowledge.is_either_member_or_archived(&gone.name).is_some());
    // both authorities are in the prefix map now
    assert_eq!(knowledge.prefix_map().len(), 2);
    assert!(knowledge.section_by_name(&k_name(0x01, 0, 5)).expect("a section").same(&half.sap));
    assert!(knowledge.section_by_name(&k_name(0x81, 0, 5)).expect("a section").same(&genesis.sap));
}

#[test]
fn split_info_counts_both_sides() {
    let genesis = k_section(Prefix::empty(), 0x10);
    let mut knowledge = first_knowledge(&genesis);
    let our_name = k_name(0x81, 0, 6);
    for i in 0..RECOMMENDED_SECTION_SIZE as u8 {
        assert!(knowledge.update_member(genesis.vouch(member(0x00, i + 1))));
        assert!(knowledge.update_member(genesis.vouch(member(0x80, i + 1))));
    }
    assert!(knowledge.update_member(genesis.vouch(member(0x80, 100))));
    assert_eq!(
        knowledge.get_split_info(&our_name, &Vec::new()),
        Some((true, RECOMMENDED_SECTION_SIZE + 1, RECOMMENDED_SECTION_SIZE))
    );
    // with one of the other side left out, that side is too small
    assert_eq!(knowledge.get_split_info(&our_name, &vec![k_name(0x00, 1, 6)]), None);
    assert_eq!(
        knowledge.get_split_info(&k_name(0x01, 0, 6), &vec![k_name(0x80, 100, 6)]),
        Some((false, RECOMMENDED_SECTION_SIZE, RECOMMENDED_SECTION_SIZE))
    );
}

#[test]
fn the_closest_other_section_comes_with_its_chain() {
    let genesis = k_section(Prefix::empty(), 0x10);
    let left = k_section(Prefix::empty().pushed(false), 0x10);
    let right = k_section(Prefix::empty().pushed(true), 0x90);
    let mut knowledge = first_knowledge(&genesis);
    let our_name = k_name(0x04, 4, 6);
    let provider = SectionKeysProvider::new();

    // nothing but our own section is known
    assert!(knowledge.get_closest_or_opposite_signed_sap(&k_name(0x90, 0, 5)).is_none());

    let mut to_left = SecuredLinkedList::new(genesis.key());
    genesis.link(&mut to_left, &left);
    let mut to_right = SecuredLinkedList::new(genesis.key());
    genesis.link(&mut to_right, &right);
    assert!(matches!(
        knowledge.update_knowledge_if_valid(left.signed_sap(), &to_left, None, &our_name, &provider),
        Ok(true)
    ));
    assert!(matches!(
        knowledge.update_knowledge_if_valid(right.signed_sap(), &to_right, None, &our_name, &provider),
        Ok(true)
    ));
    assert_eq!(knowledge.prefix(), Prefix::empty().pushed(false));

    let (closest, chain) =
        knowledge.get_closest_or_opposite_signed_sap(&k_name(0x90, 0, 5)).expect("a section");
    assert!(closest.same(&right.signed_sap()));
    assert_eq!(chain.root_key(), &genesis.key());
    assert_eq!(chain.last_key(), &right.key());
    assert!(chain.self_verify());
    // a key that the chain does not lead from
    let err = knowledge.get_proof_chain_to_current(&k_key(right.key()));
    assert!(matches!(err, Err(NodeError::Chain(ChainError::KeyNotFound))));
}

#[test]
fn a_relocated_node_takes_over_the_knowledge_of_its_new_section() {
    let genesis = k_section(Prefix::empty(), 0x10);
    let next = k_section(Prefix::empty(), 0x10);
    let mut old_knowledge = first_knowledge(&genesis);
    assert!(old_knowledge.update_member(genesis.vouch(member(0x01, 1))));

    let mut chain = SecuredLinkedList::new(genesis.key());
    genesis.link(&mut chain, &next);
    let mut new_knowledge =
        NetworkKnowledge::new(k_key(genesis.key()), chain, next.signed_sap(), None).expect("knowledge");
    assert!(new_knowledge.update_member(next.vouch(member(0x02, 2))));

    assert!(old_knowledge.relocated_to(&new_knowledge).is_ok());
    assert_eq!(old_knowledge.section_key(), k_key(next.key()));
    assert_eq!(old_knowledge.chain_len(), 2);
    assert!(old_knowledge.is_section_member(&k_name(0x01, 1, 6)));
    assert!(old_knowledge.is_section_member(&k_name(0x02, 2, 6)));

    // knowledge of another network is refused
    let foreign = first_knowledge(&k_section(Prefix::empty(), 0x50));
    let before = old_knowledge.section_key();
    assert!(matches!(old_knowledge.relocated_to(&foreign), Err(NodeError::InvalidGenesisKey(_))));
    assert_eq!(old_knowledge.section_key(), before);
}

#[test]
fn states_signed_with_a_key_that_the_new_chain_lacks_are_dropped() {
    let genesis = k_section(Prefix::empty(), 0x10);
    let ours = k_section(Prefix::empty(), 0x10);
    let other = k_section(Prefix::empty(), 0x10);

    let mut chain = SecuredLinkedList::new(genesis.key());
    genesis.link(&mut chain, &ours);
    let mut knowledge =
        NetworkKnowledge::new(k_key(genesis.key()), chain, ours.signed_sap(), None).expect("knowledge");
    assert!(knowledge.update_member(genesis.vouch(member(0x01, 1))));
    assert!(knowledge.update_member(ours.vouch(member(0x02, 2))));
    assert!(knowledge.update_member(ours.vouch(member(0x03, 3))));
    assert!(knowledge.update_member(ours.vouch(member(0x03, 3).left())));
    assert_eq!(knowledge.section_size(), 2);
    assert!(knowledge.is_either_member_or_archived(&k_name(0x03, 3, 6)).is_some());

    // the section it is moved to has a chain that does not hold our section's key
    let mut fork = SecuredLinkedList::new(genesis.key());
    genesis.link(&mut fork, &other);
    let there =
        NetworkKnowledge::new(k_key(genesis.key()), fork, other.signed_sap(), None).expect("knowledge");
    assert!(knowledge.relocated_to(&there).is_ok());
    assert!(!knowledge.has_chain_key(&k_key(ours.key())));
    assert!(knowledge.is_section_member(&k_name(0x01, 1, 6)));
    assert!(!knowledge.is_section_member(&k_name(0x02, 2, 6)));
    assert!(knowledge.is_either_member_or_archived(&k_name(0x03, 3, 6)).is_none());
    for state in knowledge.section_signed_members() {
        assert!(state.verify(&knowledge.section_chain()));
    }
}
