use secured_linked_list::SecuredLinkedList;
use section_core::bls::{PublicKey, PublicKeySet, Signature, SignatureShare};
use section_core::error::NodeError;
use section_core::join::{
    age_prefix, backoff_step, cached_prefix_map, Join, JoinAction, NodeInfo, BACKOFF_MAX_INTERVAL,
};
use section_core::messages::{
    select_join_response, Incoming, JoinRejectionReason, JoinRequest, JoinResponse,
};
use section_core::name::{Name, Prefix};
use section_core::node_state::{AuthedNodeState, NodeState, MIN_ADULT_AGE};
use section_core::prefix_map::NetworkPrefixMap;
use section_core::sap::{Addr, Ip, Peer, SectionAuthorityProvider, Signed, SignedSap};
use section_core::signed::SignedShare;

const ELDERS: usize = 7;

fn name_with(first: u8, second: u8, age: u8) -> Name {
    let mut bytes = [0u8; 32];
    bytes[0] = first;
    bytes[1] = second;
    bytes[31] = age;
    Name { bytes }
}

fn addr_with(port: u16) -> Addr {
    Addr { ip: Ip::V4([10, 0, 0, 1]), port }
}

fn key_of(pk: blsttc::PublicKey) -> PublicKey {
    PublicKey { bytes: pk.to_bytes() }
}

fn elders_in(first: u8, port_base: u16) -> Vec<Peer> {
    (0..ELDERS)
        .map(|i| Peer::new(name_with(first, i as u8 + 1, 200), addr_with(port_base + i as u16)))
        .collect()
}

fn sap_of(prefix: Prefix, elders: Vec<Peer>, sk_set: &blsttc::SecretKeySet) -> SectionAuthorityProvider {
    let key_set = PublicKeySet::from_bytes(sk_set.public_keys().to_bytes()).expect("a key set");
    SectionAuthorityProvider::new(elders, prefix, key_set)
}

fn sign_sap(sap: &SectionAuthorityProvider, sk_set: &blsttc::SecretKeySet) -> Signed {
    let sig = sk_set.secret_key().sign(sap.encode());
    Signed {
        public_key: key_of(sk_set.public_keys().public_key()),
        signature: Signature { bytes: sig.to_bytes() },
    }
}

fn sign_state(state: &NodeState, sk_set: &blsttc::SecretKeySet) -> AuthedNodeState {
    let sig = sk_set.secret_key().sign(state.encode());
    AuthedNodeState::new(
        *state,
        Signed {
            public_key: key_of(sk_set.public_keys().public_key()),
            signature: Signature { bytes: sig.to_bytes() },
        },
    )
}

fn joiner(first: u8) -> NodeInfo {
    NodeInfo::new(name_with(first, 0xaa, MIN_ADULT_AGE), addr_with(9000))
}

fn sent(action: JoinAction) -> (JoinRequest, Vec<Peer>, PublicKey, bool) {
    match action {
        JoinAction::Send { request, recipients, section_key, backoff } => {
            (request, recipients, section_key, backoff)
        }
        other => panic!("JoinRequest was not received: {:?}", other),
    }
}

#[test]
fn join_as_adult() {
    let sk_set = blsttc::SecretKeySet::random(4, &mut rand::thread_rng());
    let section_key = sk_set.public_keys().public_key();
    let elders = elders_in(0x00, 1000);
    let section_auth = sap_of(Prefix::empty(), elders.clone(), &sk_set);
    let bootstrap_addr = elders[0].addr;

    let node = joiner(0x40);
    let node_age = MIN_ADULT_AGE;
    let mut state = Join::new(node, NetworkPrefixMap::new(key_of(section_key)));

    // the first request goes to the bootstrap address, without a proof of resource
    let (request, recipients, _, backoff) = sent(state.start(bootstrap_addr));
    let addrs: Vec<Addr> = recipients.iter().map(|peer| peer.addr).collect();
    assert_eq!(addrs, vec![bootstrap_addr]);
    assert!(request.resource_proof_response.is_none());
    assert!(!backoff);

    // the section answers with its authority and the age it expects
    let chain = SecuredLinkedList::new(section_key);
    let action = state.handle_response(
        JoinResponse::Retry {
            section_auth: section_auth.clone(),
            section_signed: sign_sap(&section_auth, &sk_set),
            proof_chain: chain.clone(),
            expected_age: MIN_ADULT_AGE,
        },
        elders[0],
        0,
    );
    let (request, recipients, dst_key, _) = sent(action);
    assert_eq!(dst_key, key_of(section_key));
    assert_eq!(recipients, section_auth.elders_vec());
    assert_eq!(request.section_key, key_of(section_key));

    // the section approves
    let signed_sap = SignedSap::new(section_auth.clone(), sign_sap(&section_auth, &sk_set));
    let node_state = sign_state(&NodeState::joined(node.peer(), None), &sk_set);
    let action = state.handle_response(
        JoinResponse::Approval {
            genesis_key: key_of(section_key),
            section_auth: signed_sap,
            node_state,
            section_chain: chain,
        },
        elders[0],
        0,
    );
    let section = match action {
        JoinAction::Approved(knowledge) => knowledge,
        other => panic!("not approved: {:?}", other),
    };
    assert!(section.authority_provider().same(&section_auth));
    assert_eq!(section.section_key(), key_of(section_key));
    assert_eq!(state.node.age(), node_age);
    assert!(section.is_section_member(&node.name));
    assert_eq!(section.genesis_key(), key_of(section_key));
    assert_eq!(section.prefix_map().genesis_key(), section.genesis_key());
}

#[test]
fn join_receive_redirect_response() {
    let sk_set = blsttc::SecretKeySet::random(4, &mut rand::thread_rng());
    let genesis_key = sk_set.public_keys().public_key();
    let bootstrap = elders_in(0x00, 1000)[0];

    let mut state = Join::new(joiner(0x40), NetworkPrefixMap::new(key_of(genesis_key)));
    let (request, recipients, _, _) = sent(state.start(bootstrap.addr));
    let addrs: Vec<Addr> = recipients.iter().map(|peer| peer.addr).collect();
    assert_eq!(addrs, vec![bootstrap.addr]);
    assert!(request.aggregated.is_none());

    // a redirect to seven new elders under another key
    let new_sk_set = blsttc::SecretKeySet::random(4, &mut rand::thread_rng());
    let new_elders = elders_in(0x11, 2000);
    let new_section_auth = sap_of(Prefix::empty(), new_elders.clone(), &new_sk_set);
    let action = state.handle_response(JoinResponse::Redirect(new_section_auth.clone()), bootstrap, 0);

    let (request, recipients, dst_key, backoff) = sent(action);
    let addrs: Vec<Addr> = recipients.iter().map(|peer| peer.addr).collect();
    let expected: Vec<Addr> = new_section_auth.elders_vec().iter().map(|peer| peer.addr).collect();
    assert_eq!(addrs, expected);
    assert_eq!(addrs.len(), ELDERS);
    assert_eq!(dst_key, key_of(new_sk_set.public_keys().public_key()));
    assert_eq!(request.section_key, key_of(new_sk_set.public_keys().public_key()));
    assert!(backoff);
}

#[test]
fn join_invalid_redirect_response() {
    let sk_set = blsttc::SecretKeySet::random(4, &mut rand::thread_rng());
    let section_key = sk_set.public_keys().public_key();
    let bootstrap = elders_in(0x00, 1000)[0];

    let mut state = Join::new(joiner(0x40), NetworkPrefixMap::new(key_of(section_key)));
    let _ = sent(state.start(bootstrap.addr));

    let new_sk_set = blsttc::SecretKeySet::random(4, &mut rand::thread_rng());

    // a redirect without elders gives nothing to send
    let empty = sap_of(Prefix::empty(), Vec::new(), &new_sk_set);
    let action = state.handle_response(JoinResponse::Redirect(empty), bootstrap, 0);
    assert!(matches!(action, JoinAction::Wait));
    assert_eq!(state.section_key, key_of(section_key));

    // one with elders does
    let full = sap_of(Prefix::empty(), elders_in(0x11, 2000), &new_sk_set);
    let action = state.handle_response(JoinResponse::Redirect(full), bootstrap, 0);
    let (request, recipients, _, _) = sent(action);
    assert_eq!(recipients.len(), ELDERS);
    assert!(request.resource_proof_response.is_none());

    // the same redirect once more brings nothing new
    let again = sap_of(Prefix::empty(), elders_in(0x11, 2000), &new_sk_set);
    let action = state.handle_response(JoinResponse::Redirect(again), bootstrap, 0);
    assert!(matches!(action, JoinAction::Wait));
}

#[test]
fn join_disallowed_response() {
    let sk_set = blsttc::SecretKeySet::random(4, &mut rand::thread_rng());
    let section_key = sk_set.public_keys().public_key();
    let bootstrap = elders_in(0x00, 1000)[0];

    let mut state = Join::new(joiner(0x40), NetworkPrefixMap::new(key_of(section_key)));
    let _ = sent(state.start(bootstrap.addr));

    let action = state.handle_response(
        JoinResponse::Rejected(JoinRejectionReason::JoinsDisallowed),
        bootstrap,
        0,
    );
    match action {
        JoinAction::Failed(NodeError::TryJoinLater) => {}
        other => panic!("Not getting an execpted network rejection. {:?}", other),
    }
}

#[test]
fn join_unreachable_response() {
    let sk_set = blsttc::SecretKeySet::random(4, &mut rand::thread_rng());
    let bootstrap = elders_in(0x00, 1000)[0];
    let node = joiner(0x40);
    let mut state = Join::new(node, NetworkPrefixMap::new(key_of(sk_set.public_keys().public_key())));
    let _ = sent(state.start(bootstrap.addr));
    let action = state.handle_response(
        JoinResponse::Rejected(JoinRejectionReason::NodeNotReachable(node.addr)),
        bootstrap,
        0,
    );
    match action {
        JoinAction::Failed(NodeError::NodeNotReachable(addr)) => assert_eq!(addr, node.addr),
        other => panic!("{:?}", other),
    }
}

#[test]
fn join_invalid_retry_prefix_response() {
    let node = joiner(0x40);
    let (good_prefix, bad_prefix) = {
        let zero_side = Prefix::empty().pushed(false);
        let one_side = Prefix::empty().pushed(true);
        if node.name.bit(0) {
            (one_side, zero_side)
        } else {
            (zero_side, one_side)
        }
    };
    assert!(good_prefix.matches(&node.name));
    assert!(!bad_prefix.matches(&node.name));

    let sk_set = blsttc::SecretKeySet::random(4, &mut rand::thread_rng());
    let section_key = sk_set.public_keys().public_key();
    let section_auth = sap_of(good_prefix, elders_in(0x20, 1000), &sk_set);
    let bootstrap = Peer::new(name_with(0x22, 0, 200), addr_with(1));

    let mut state = Join::new(node, NetworkPrefixMap::new(key_of(section_key)));
    let _ = sent(state.start(bootstrap.addr));

    let chain = SecuredLinkedList::new(section_key);
    let signed = sign_sap(&section_auth, &sk_set);

    // a retry for the other half of the network is passed over
    let action = state.handle_response(
        JoinResponse::Retry {
            section_auth: sap_of(bad_prefix, elders_in(0x90, 3000), &sk_set),
            section_signed: signed,
            proof_chain: chain.clone(),
            expected_age: MIN_ADULT_AGE,
        },
        bootstrap,
        0,
    );
    assert!(matches!(action, JoinAction::Wait));

    // one for our half is taken up
    let action = state.handle_response(
        JoinResponse::Retry {
            section_auth: section_auth.clone(),
            section_signed: signed,
            proof_chain: chain,
            expected_age: MIN_ADULT_AGE,
        },
        bootstrap,
        0,
    );
    let (request, recipients, _, backoff) = sent(action);
    assert_eq!(request.section_key, key_of(section_key));
    assert_eq!(recipients, section_auth.elders_vec());
    assert!(backoff);
}

#[test]
fn join_aggregates_approval_shares() {
    let threshold = 4;
    let sk_set = blsttc::SecretKeySet::random(threshold, &mut rand::thread_rng());
    let pk_set = sk_set.public_keys();
    let section_key = pk_set.public_key();
    let elders = elders_in(0x00, 1000);
    let section_auth = sap_of(Prefix::empty(), elders.clone(), &sk_set);
    let chain = SecuredLinkedList::new(section_key);

    let node = joiner(0x40);
    let mut state = Join::new(node, NetworkPrefixMap::new(key_of(section_key)));
    let _ = sent(state.start(elders[0].addr));

    let node_state = NodeState::joined(node.peer(), None);
    let payload = node_state.encode();
    let mut sends = Vec::new();
    for index in 0..ELDERS {
        let share = sk_set.secret_key_share(index).sign(&payload);
        let sig_share = SignedShare {
            public_key_set: PublicKeySet::from_bytes(pk_set.to_bytes()).expect("a key set"),
            index,
            signature_share: SignatureShare { bytes: share.to_bytes() },
        };
        let action = state.handle_response(
            JoinResponse::ApprovalShare {
                node_state,
                sig_share,
                section_auth: section_auth.clone(),
                section_signed: sign_sap(&section_auth, &sk_set),
                section_chain: chain.clone(),
            },
            elders[index],
            index as u64,
        );
        match action {
            JoinAction::Wait => {}
            JoinAction::Send { request, recipients, section_key, backoff } => {
                sends.push((index, request, recipients, section_key, backoff))
            }
            other => panic!("{:?}", other),
        }
    }

    // exactly one request went out: when the share after the threshold had come
    assert_eq!(sends.len(), 1);
    let (index, request, recipients, dst_key, backoff) = sends.remove(0);
    assert_eq!(index, threshold);
    assert!(!backoff);
    assert_eq!(dst_key, key_of(section_key));
    assert_eq!(recipients, section_auth.elders_vec());
    let approval = request.aggregated.expect("an approval");
    assert_eq!(approval.value, node_state);
    assert_eq!(approval.sig.public_key, key_of(section_key));
    let sig = blsttc::Signature::from_bytes(approval.sig.signature.bytes).expect("a signature");
    assert!(section_key.verify(&sig, &payload));
    assert!(approval.verify(&chain));
    assert!(state.aggregated);
}

#[test]
fn retry_with_another_age_asks_for_a_new_identity() {
    let sk_set = blsttc::SecretKeySet::random(4, &mut rand::thread_rng());
    let section_key = sk_set.public_keys().public_key();
    let section_auth = sap_of(Prefix::empty(), elders_in(0x00, 1000), &sk_set);
    let bootstrap = elders_in(0x00, 1000)[0];
    let node = joiner(0x40);
    let mut state = Join::new(node, NetworkPrefixMap::new(key_of(section_key)));
    let _ = sent(state.start(bootstrap.addr));

    let action = state.handle_response(
        JoinResponse::Retry {
            section_auth: section_auth.clone(),
            section_signed: sign_sap(&section_auth, &sk_set),
            proof_chain: SecuredLinkedList::new(section_key),
            expected_age: 98,
        },
        bootstrap,
        0,
    );
    let (prefix, age) = match action {
        JoinAction::Regenerate { prefix, age } => (prefix, age),
        other => panic!("{:?}", other),
    };
    assert_eq!(age, 98);
    // 98 / 2 = 49 = 0b110001, read from the lowest bit
    let mut expected = Prefix::empty();
    for bit in [true, false, false, false, true, true] {
        expected = expected.pushed(bit);
    }
    assert_eq!(prefix, expected);
    assert_eq!(prefix, age_prefix(98));
    assert_eq!(prefix.bit_count(), 6);

    // a name outside the prefix, or of another age, is refused
    let action = state.identity_regenerated(name_with(0x00, 0, 98));
    assert!(matches!(action, JoinAction::Regenerate { .. }));
    let action = state.identity_regenerated(name_with(0b1000_1100, 0, 97));
    assert!(matches!(action, JoinAction::Regenerate { .. }));
    assert_eq!(state.node, node);

    // a fitting one is taken, and the request goes out
    let new_name = name_with(0b1000_1100, 7, 98);
    let (request, recipients, dst_key, backoff) = sent(state.identity_regenerated(new_name));
    assert_eq!(state.node.name, new_name);
    assert_eq!(state.node.age(), 98);
    assert_eq!(request.section_key, key_of(section_key));
    assert_eq!(dst_key, key_of(section_key));
    assert_eq!(recipients, section_auth.elders_vec());
    assert!(backoff);
    assert!(matches!(state.identity_regenerated(new_name), JoinAction::Wait));
}

#[test]
fn age_prefix_of_small_ages() {
    assert_eq!(age_prefix(0), Prefix::empty());
    assert_eq!(age_prefix(1), Prefix::empty());
    assert_eq!(age_prefix(2), Prefix::empty().pushed(true));
    assert_eq!(age_prefix(5), Prefix::empty().pushed(false).pushed(true));
    assert_eq!(age_prefix(255).bit_count(), 7);
}

#[test]
fn resource_challenge_is_answered_to_its_sender() {
    let sk_set = blsttc::SecretKeySet::random(4, &mut rand::thread_rng());
    let section_key = sk_set.public_keys().public_key();
    let bootstrap = elders_in(0x00, 1000)[0];
    let mut state = Join::new(joiner(0x40), NetworkPrefixMap::new(key_of(section_key)));
    let _ = sent(state.start(bootstrap.addr));

    let nonce = [7u8; 32];
    let nonce_signature = [9u8; 64];
    let sender = elders_in(0x00, 1000)[3];
    let action = state.handle_response(
        JoinResponse::ResourceChallenge { data_size: 100, difficulty: 2, nonce, nonce_signature },
        sender,
        0,
    );
    let (request, recipients, dst_key, backoff) = sent(action);
    assert_eq!(recipients, vec![sender]);
    assert_eq!(dst_key, key_of(section_key));
    assert!(!backoff);
    let proof = request.resource_proof_response.expect("a proof");
    assert_eq!(proof.nonce, nonce);
    assert_eq!(proof.nonce_signature, nonce_signature);
    assert_eq!(proof.data.len(), 100);
    assert_eq!(proof.data, vec![7u8; 100]);
    let puzzle = resource_proof::ResourceProof::new(100, 2);
    assert!(puzzle.validate_all(&nonce, &proof.data.iter().cloned().collect(), proof.solution));
}

#[test]
fn only_answers_to_join_requests_are_selected() {
    assert!(select_join_response(Incoming::Service).is_none());
    assert!(select_join_response(Incoming::NodeBlsShare).is_none());
    assert!(select_join_response(Incoming::OtherNodeMsg).is_none());
    assert!(select_join_response(Incoming::Unreadable).is_none());
    let response = JoinResponse::Rejected(JoinRejectionReason::JoinsDisallowed);
    assert!(matches!(
        select_join_response(Incoming::JoinResponse(response)),
        Some(JoinResponse::Rejected(JoinRejectionReason::JoinsDisallowed))
    ));
}

#[test]
fn approval_for_another_peer_is_passed_over() {
    let sk_set = blsttc::SecretKeySet::random(4, &mut rand::thread_rng());
    let section_key = sk_set.public_keys().public_key();
    let elders = elders_in(0x00, 1000);
    let section_auth = sap_of(Prefix::empty(), elders.clone(), &sk_set);
    let node = joiner(0x40);
    let mut state = Join::new(node, NetworkPrefixMap::new(key_of(section_key)));
    let _ = sent(state.start(elders[0].addr));
    let chain = SecuredLinkedList::new(section_key);

    let other = Peer::new(name_with(0x41, 1, 5), addr_with(7));
    let approval = |peer: Peer, signer: &blsttc::SecretKeySet| JoinResponse::Approval {
        genesis_key: key_of(section_key),
        section_auth: SignedSap::new(section_auth.clone(), sign_sap(&section_auth, &sk_set)),
        node_state: sign_state(&NodeState::joined(peer, None), signer),
        section_chain: chain.clone(),
    };
    let action = state.handle_response(approval(other, &sk_set), elders[0], 0);
    assert!(matches!(action, JoinAction::Wait));

    // a state signed with a key that the chain does not hold is passed over too
    let stranger = blsttc::SecretKeySet::random(4, &mut rand::thread_rng());
    let action = state.handle_response(approval(node.peer(), &stranger), elders[0], 0);
    assert!(matches!(action, JoinAction::Wait));

    let action = state.handle_response(approval(node.peer(), &sk_set), elders[0], 0);
    assert!(matches!(action, JoinAction::Approved(_)));
}

#[test]
fn a_kept_prefix_map_is_used_if_it_is_of_this_network() {
    let sk_set = blsttc::SecretKeySet::random(4, &mut rand::thread_rng());
    let section_key = sk_set.public_keys().public_key();
    let section_auth = sap_of(Prefix::empty(), elders_in(0x00, 1000), &sk_set);
    let mut map = NetworkPrefixMap::new(key_of(section_key));
    let signed = SignedSap::new(section_auth.clone(), sign_sap(&section_auth, &sk_set));
    assert!(matches!(map.update(signed, &SecuredLinkedList::new(section_key)), Ok(true)));
    let bytes = map.encode();

    assert_eq!(cached_prefix_map(Some(&bytes), key_of(section_key)).len(), 1);
    assert_eq!(cached_prefix_map(None, key_of(section_key)).len(), 0);
    assert_eq!(cached_prefix_map(Some(&bytes[1..]), key_of(section_key)).len(), 0);
    let other = blsttc::SecretKey::random().public_key();
    let fresh = cached_prefix_map(Some(&bytes), key_of(other));
    assert_eq!(fresh.len(), 0);
    assert_eq!(fresh.genesis_key(), key_of(other));

    // with the kept map the first request goes to the elders of the peer's section
    let mut state = Join::new(joiner(0x40), cached_prefix_map(Some(&bytes), key_of(section_key)));
    let (request, recipients, _, backoff) = sent(state.start(addr_with(1)));
    assert_eq!(recipients, section_auth.elders_vec());
    assert_eq!(request.section_key, key_of(section_key));
    assert!(!backoff);
}

#[test]
fn the_waits_start_over_when_the_schedule_has_run_out() {
    assert_eq!(backoff_step(Some(50)), (50, false));
    assert_eq!(backoff_step(Some(750)), (750, false));
    assert_eq!(backoff_step(None), (BACKOFF_MAX_INTERVAL, true));
    assert_eq!(BACKOFF_MAX_INTERVAL, 750);
    let state = Join::new(joiner(0x40), NetworkPrefixMap::new(PublicKey { bytes: [1; 48] }));
    assert!(matches!(state.handle_closed(), JoinAction::Failed(NodeError::InvalidState)));
}

#[test]
fn retry_for_a_peer_of_age_six_asks_for_a_new_identity() {
    let sk_set = blsttc::SecretKeySet::random(4, &mut rand::thread_rng());
    let section_key = sk_set.public_keys().public_key();
    let section_auth = sap_of(Prefix::empty(), elders_in(0x00, 1000), &sk_set);
    let bootstrap = elders_in(0x00, 1000)[0];
    let node = NodeInfo::new(name_with(0x40, 0xaa, 6), addr_with(9000));
    let mut state = Join::new(node, NetworkPrefixMap::new(key_of(section_key)));
    let _ = sent(state.start(bootstrap.addr));

    let action = state.handle_response(
        JoinResponse::Retry {
            section_auth: section_auth.clone(),
            section_signed: sign_sap(&section_auth, &sk_set),
            proof_chain: SecuredLinkedList::new(section_key),
            expected_age: 98,
        },
        bootstrap,
        0,
    );
    match action {
        JoinAction::Regenerate { prefix, age } => {
            assert_eq!(age, 98);
            assert_eq!(prefix, age_prefix(98));
        }
        other => panic!("{:?}", other),
    }
    let new_name = name_with(0b1000_1100, 1, 98);
    let (request, recipients, dst_key, backoff) = sent(state.identity_regenerated(new_name));
    assert_eq!(state.node.name, new_name);
    assert_eq!(request.section_key, key_of(section_key));
    assert_eq!(dst_key, key_of(section_key));
    assert_eq!(recipients, section_auth.elders_vec());
    assert!(backoff);
}

#[test]
fn a_challenge_is_answered_where_the_tries_suffice() {
    let sk_set = blsttc::SecretKeySet::random(4, &mut rand::thread_rng());
    let section_key = sk_set.public_keys().public_key();
    let bootstrap = elders_in(0x00, 1000)[0];
    let mut state = Join::new(joiner(0x40), NetworkPrefixMap::new(key_of(section_key)));
    assert_eq!(state.proof_tries, u64::MAX);
    let _ = sent(state.start(bootstrap.addr));
    let nonce = [7u8; 32];
    let challenge = |difficulty: u8| JoinResponse::ResourceChallenge {
        data_size: 128,
        difficulty,
        nonce,
        nonce_signature: [9u8; 64],
    };

    // a harder challenge than most is answered too
    let (request, recipients, _, backoff) = sent(state.handle_response(challenge(10), bootstrap, 0));
    assert_eq!(recipients, vec![bootstrap]);
    assert!(!backoff);
    let proof = request.resource_proof_response.expect("a proof");
    let puzzle = resource_proof::ResourceProof::new(128, 10);
    assert!(puzzle.validate_all(&nonce, &proof.data.iter().cloned().collect(), proof.solution));
    let solution = proof.solution;
    assert!(solution > 0);

    // the solution is the least one: one try less does not find it
    state.proof_tries = solution;
    assert!(matches!(state.handle_response(challenge(10), bootstrap, 0), JoinAction::Wait));
    state.proof_tries = solution + 1;
    let (request, _, _, _) = sent(state.handle_response(challenge(10), bootstrap, 0));
    assert_eq!(request.resource_proof_response.expect("a proof").solution, solution);

    // without a try nothing is found, whatever the difficulty
    state.proof_tries = 0;
    assert!(matches!(state.handle_response(challenge(0), bootstrap, 0), JoinAction::Wait));
    state.proof_tries = 1;
    let (request, _, _, _) = sent(state.handle_response(challenge(0), bootstrap, 0));
    assert_eq!(request.resource_proof_response.expect("a proof").solution, 0);
}

#[test]
fn the_search_finds_what_the_prover_finds() {
    let data = vec![3u8; 64];
    let expected = resource_proof::ResourceProof::new(64, 6)
        .create_prover(data.iter().cloned().collect())
        .solve();
    assert_eq!(section_core::resource::solve_within(64, 6, &data, u64::MAX), Some(expected));
    assert_eq!(section_core::resource::solve_within(64, 6, &data, expected + 1), Some(expected));
    assert_eq!(section_core::resource::solve_within(64, 6, &data, expected), None);
}
