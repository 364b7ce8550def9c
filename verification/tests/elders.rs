use secured_linked_list::SecuredLinkedList;
use section_core::bls::{PublicKey, PublicKeySet, Signature};
use section_core::elders::{elder_candidates, rank_key, supermajority, ElderCandidates};
use section_core::knowledge::{
    create_first_section_authority_provider, create_first_sig, NetworkKnowledge, ELDER_COUNT,
    RECOMMENDED_SECTION_SIZE,
};
use section_core::name::{Name, Prefix};
use section_core::node_state::{AuthedNodeState, NodeState};
use section_core::sap::{Addr, Ip, Peer, SectionAuthorityProvider, Signed, SignedSap};

fn e_name(first: u8, second: u8, age: u8) -> Name {
    let mut bytes = [0u8; 32];
    bytes[0] = first;
    bytes[1] = second;
    bytes[31] = age;
    Name { bytes }
}

fn e_addr(port: u16) -> Addr {
    Addr { ip: Ip::V4([10, 1, 1, 1]), port }
}

fn e_key(pk: blsttc::PublicKey) -> PublicKey {
    PublicKey { bytes: pk.to_bytes() }
}

fn e_sign(sk_set: &blsttc::SecretKeySet, bytes: &[u8]) -> Signed {
    Signed {
        public_key: e_key(sk_set.public_keys().public_key()),
        signature: Signature { bytes: sk_set.secret_key().sign(bytes).to_bytes() },
    }
}

fn e_member(sk_set: &blsttc::SecretKeySet, first: u8, second: u8, age: u8) -> AuthedNodeState {
    let state = NodeState::joined(Peer::new(e_name(first, second, age), e_addr(second as u16)), None);
    AuthedNodeState::new(state, e_sign(sk_set, &state.encode()))
}

fn e_knowledge(elders: Vec<Peer>) -> (NetworkKnowledge, blsttc::SecretKeySet) {
    let sk_set = blsttc::SecretKeySet::random(2, &mut rand::thread_rng());
    let key_set = PublicKeySet::from_bytes(sk_set.public_keys().to_bytes()).expect("a key set");
    let sap = SectionAuthorityProvider::new(elders, Prefix::empty(), key_set);
    let signed = SignedSap::new(sap.clone(), e_sign(&sk_set, &sap.encode()));
    let key = sk_set.public_keys().public_key();
    let knowledge =
        NetworkKnowledge::new(e_key(key), SecuredLinkedList::new(key), signed, None).expect("knowledge");
    (knowledge, sk_set)
}

#[test]
fn the_oldest_members_are_chosen_and_elders_before_others_of_their_age() {
    let sk_set = blsttc::SecretKeySet::random(2, &mut rand::thread_rng());
    let key_set = PublicKeySet::from_bytes(sk_set.public_keys().to_bytes()).expect("a key set");
    let young = e_member(&sk_set, 1, 1, 5);
    let old = e_member(&sk_set, 2, 2, 90);
    let elder = e_member(&sk_set, 3, 3, 50);
    let rival = e_member(&sk_set, 4, 4, 50);
    let other_half = e_member(&sk_set, 0x85, 5, 99);
    let current = SectionAuthorityProvider::new(vec![elder.value.peer()], Prefix::empty(), key_set);
    let members = vec![young, old, elder, rival, other_half];

    let chosen = elder_candidates(&members, 3, &current, &Vec::new(), None);
    assert_eq!(chosen, vec![other_half, old, elder]);
    let chosen = elder_candidates(&members, 4, &current, &vec![old.value.name], None);
    assert_eq!(chosen, vec![other_half, elder, rival, young]);
    let half = Prefix::empty().pushed(false);
    let chosen = elder_candidates(&members, 9, &current, &Vec::new(), Some(&half));
    assert_eq!(chosen, vec![old, elder, rival, young]);
    assert!(elder_candidates(&members, 0, &current, &Vec::new(), None).is_empty());
    assert!(elder_candidates(&Vec::new(), 3, &current, &Vec::new(), None).is_empty());

    let key = rank_key(&elder, &current);
    assert_eq!(key.len(), 130);
    assert_eq!(key[0], 255 - 50);
    assert_eq!(key[1], 0);
    assert_eq!(rank_key(&rival, &current)[1], 1);
    assert_eq!(&key[2..98], &elder.sig.signature.bytes[..]);
    assert_eq!(&key[98..], &elder.value.name.bytes[..]);
}

#[test]
fn of_members_of_one_age_the_one_with_the_lower_signature_is_chosen() {
    let sk_set = blsttc::SecretKeySet::random(2, &mut rand::thread_rng());
    let key_set = PublicKeySet::from_bytes(sk_set.public_keys().to_bytes()).expect("a key set");
    let current = SectionAuthorityProvider::new(Vec::new(), Prefix::empty(), key_set);
    let a = e_member(&sk_set, 1, 1, 50);
    let b = e_member(&sk_set, 2, 2, 50);
    let chosen = elder_candidates(&vec![a, b], 1, &current, &Vec::new(), None);
    let expected = if a.sig.signature.bytes < b.sig.signature.bytes { a } else { b };
    assert_eq!(chosen, vec![expected]);
}

#[test]
fn a_supermajority_is_more_than_two_thirds() {
    assert_eq!(supermajority(0), 1);
    assert_eq!(supermajority(1), 1);
    assert_eq!(supermajority(3), 3);
    assert_eq!(supermajority(7), 5);
    assert_eq!(supermajority(usize::MAX), 1 + (usize::MAX as u128 * 2 / 3) as usize);
}

#[test]
fn candidates_stand_in_the_order_of_their_names() {
    let a = Peer::new(e_name(1, 0, 9), e_addr(1));
    let b = Peer::new(e_name(2, 0, 9), e_addr(2));
    let candidates = ElderCandidates::new(Prefix::empty().pushed(true), vec![b, a, b]);
    assert_eq!(candidates.elders(), vec![a, b]);
    assert_eq!(candidates.len(), 2);
    assert_eq!(candidates.prefix(), Prefix::empty().pushed(true));
}

#[test]
fn elders_change_when_older_members_are_there() {
    let current: Vec<Peer> = (0..ELDER_COUNT as u8).map(|i| Peer::new(e_name(0x10, i, 20), e_addr(i as u16))).collect();
    let (mut knowledge, sk_set) = e_knowledge(current.clone());
    let our_name = current[0].name;
    for i in 0..ELDER_COUNT as u8 {
        assert!(knowledge.update_member(e_member(&sk_set, 0x10, i, 20)));
    }
    // the best members are the elders: nothing changes
    assert!(knowledge.promote_and_demote_elders(&our_name, &Vec::new()).is_empty());
    // a much older member takes the place of one of them
    let senior = e_member(&sk_set, 0x20, 1, 200);
    assert!(knowledge.update_member(senior));
    let sets = knowledge.promote_and_demote_elders(&our_name, &Vec::new());
    assert_eq!(sets.len(), 1);
    assert_eq!(sets[0].len(), ELDER_COUNT);
    assert!(sets[0].elders().contains(&senior.value.peer()));
    assert_eq!(sets[0].prefix(), Prefix::empty());
    // with too many members left out the elders would be too few: nothing changes
    let excluded: Vec<Name> = current.iter().take(4).map(|p| p.name).collect();
    assert!(knowledge.promote_and_demote_elders(&our_name, &excluded).is_empty());
    // no split with so few members
    assert!(knowledge.try_split(&our_name, &Vec::new()).is_none());
}

#[test]
fn a_section_with_enough_members_on_both_sides_splits() {
    let current: Vec<Peer> = (0..ELDER_COUNT as u8).map(|i| Peer::new(e_name(0x00, i + 1, 30), e_addr(i as u16))).collect();
    let (mut knowledge, sk_set) = e_knowledge(current.clone());
    let our_name = e_name(0x80, 1, 10);
    for i in 0..RECOMMENDED_SECTION_SIZE as u8 {
        assert!(knowledge.update_member(e_member(&sk_set, 0x00, i + 1, 30)));
        assert!(knowledge.update_member(e_member(&sk_set, 0x80, i + 1, 10 + i)));
    }
    let (ours, other) = knowledge.try_split(&our_name, &Vec::new()).expect("a split");
    assert_eq!(ours.prefix(), Prefix::empty().pushed(true));
    assert_eq!(other.prefix(), Prefix::empty().pushed(false));
    assert_eq!(ours.len(), ELDER_COUNT);
    assert_eq!(other.len(), ELDER_COUNT);
    assert!(ours.elders().iter().all(|p| p.name.bit(0)));
    assert!(other.elders().iter().all(|p| !p.name.bit(0)));
    // the seven oldest of our half
    let ages: Vec<u8> = ours.elders().iter().map(|p| p.age()).collect();
    assert_eq!(ages, vec![17, 18, 19, 20, 21, 22, 23]);
    let names: Vec<Name> = other.elders().iter().map(|p| p.name).collect();
    let current_names: Vec<Name> = current.iter().map(|p| p.name).collect();
    assert_eq!(names, current_names);

    let sets = knowledge.promote_and_demote_elders(&our_name, &Vec::new());
    assert_eq!(sets.len(), 2);
    assert_eq!(sets[0].elders(), ours.elders());
    assert_eq!(sets[1].elders(), other.elders());
}

#[test]
fn the_first_node_is_the_only_elder_and_member() {
    let sk_set = blsttc::SecretKeySet::random(0, &mut rand::thread_rng());
    let peer = Peer::new(e_name(0x42, 0, 255), e_addr(12000));
    let (knowledge, share) = NetworkKnowledge::first_node(peer, &sk_set).expect("knowledge");
    let genesis = e_key(sk_set.public_keys().public_key());
    assert_eq!(knowledge.genesis_key(), genesis);
    assert_eq!(knowledge.section_key(), genesis);
    assert_eq!(knowledge.elders(), vec![peer]);
    assert_eq!(knowledge.prefix(), Prefix::empty());
    assert_eq!(knowledge.chain_len(), 1);
    assert!(share.secret_key_share == sk_set.secret_key_share(0u64));
    assert_eq!(share.public_key_set.as_bytes(), &sk_set.public_keys().to_bytes()[..]);
    assert_eq!(knowledge.section_members(), vec![NodeState::joined(peer, None)]);
    assert!(knowledge.is_section_member(&peer.name));
    assert!(knowledge.section_signed_authority_provider().is_authentic());
    assert!(knowledge.section_signed_members()[0].verify(&knowledge.section_chain()));
    assert_eq!(knowledge.prefix_map().len(), 1);
    assert_eq!(share.index, 0);
    assert_eq!(share.public_key_set.as_bytes(), &sk_set.public_keys().to_bytes()[..]);
    assert!(knowledge.adults().is_empty());

    // what the node signs alone is what the section's key signs
    let key_set = PublicKeySet::from_bytes(sk_set.public_keys().to_bytes()).expect("a key set");
    let signed = create_first_sig(&key_set, &sk_set.secret_key_share(0usize), b"alone").expect("a signature");
    assert_eq!(signed.signature.bytes, sk_set.secret_key().sign(b"alone").to_bytes());
    assert!(signed.verify(b"alone"));
    let first = create_first_section_authority_provider(&key_set, &sk_set.secret_key_share(0usize), peer)
        .expect("an authority");
    assert!(first.is_authentic());
    assert_eq!(first.value.elders_vec(), vec![peer]);
}

#[test]
fn the_first_node_cannot_set_out_with_the_zero_key_share() {
    // the polynomial x - 1 gives the elder with index 0 the zero share
    let poly = blsttc::poly::Poly::identity() - blsttc::poly::Poly::one();
    let sk_set = blsttc::SecretKeySet::from(poly);
    assert!(sk_set.secret_key_share(0u64) == blsttc::SecretKeyShare::default());
    let peer = Peer::new(Name { bytes: [3u8; 32] }, Addr { ip: Ip::V4([10, 1, 1, 1]), port: 1 });
    let r = NetworkKnowledge::first_node(peer, &sk_set);
    assert!(matches!(r, Err(section_core::error::NodeError::InvalidSignatureShare)));
}
