use section_core::bls::PublicKeySet;
use section_core::consensus::{from_item, to_item, voters_fit};
use section_core::membership::{Membership, MembershipError, VoteResponse, SOFT_MAX_MEMBERS};
use section_core::name::Name;
use section_core::node_state::{MembershipState, NodeState};
use section_core::sap::{Addr, Ip, Peer};

fn m_name(first: u8, second: u8) -> Name {
    let mut bytes = [0u8; 32];
    bytes[0] = first;
    bytes[1] = second;
    bytes[31] = 6;
    Name { bytes }
}

fn m_state(first: u8, second: u8) -> NodeState {
    NodeState::joined(
        Peer::new(m_name(first, second), Addr { ip: Ip::V4([192, 168, 0, second]), port: 5000 }),
        None,
    )
}

fn elders(n: usize, bootstrap: Vec<NodeState>) -> Vec<Membership> {
    let sk_set = blsttc::SecretKeySet::random((n - 1) * 2 / 3, &mut rand::thread_rng());
    let key_set = PublicKeySet::from_bytes(sk_set.public_keys().to_bytes()).expect("a key set");
    (0..n)
        .map(|i| {
            Membership::from(
                (i as u8, sk_set.secret_key_share(i)),
                &key_set,
                n,
                bootstrap.clone(),
            )
            .expect("a membership")
        })
        .collect()
}

/// Hands every vote to every elder until nobody has anything more to say.
fn settle_votes(net: &mut Vec<Membership>, first: section_core::consensus::SignedVote) -> usize {
    let mut queue = vec![first];
    let mut decided = 0;
    let mut rounds = 0;
    while let Some(vote) = queue.pop() {
        rounds += 1;
        assert!(rounds < 10_000);
        for elder in net.iter_mut() {
            match elder.handle_signed_vote(vote.duplicate()).expect("a response") {
                VoteResponse::WaitingForMoreVotes => {}
                VoteResponse::Broadcast(next) => queue.push(next),
                VoteResponse::Decided { broadcast, .. } => {
                    decided += 1;
                    if let Some(next) = broadcast {
                        queue.push(next);
                    }
                }
            }
        }
    }
    decided
}

#[test]
fn items_stand_for_states() {
    let mut state = m_state(1, 2);
    assert_eq!(from_item(&to_item(&state)), state);
    state.state = MembershipState::Left;
    state.previous_name = Some(m_name(9, 9));
    assert_eq!(from_item(&to_item(&state)), state);
    state.state = MembershipState::Relocated(m_name(3, 3));
    state.addr.ip = Ip::V6([1; 16]);
    let item = to_item(&state);
    assert_eq!(item.0, state.name.bytes);
    assert_eq!(item.2, Some(Some(m_name(3, 3).bytes)));
    assert_eq!(from_item(&item), state);
}

#[test]
fn the_elders_decide_on_a_new_member() {
    let bootstrap = vec![m_state(0, 1), m_state(0, 2)];
    let mut net = elders(4, bootstrap.clone());
    assert_eq!(net[0].gen(), 0);
    assert_eq!(net[0].id(), 0);
    assert_eq!(net[3].id(), 3);

    let newcomer = m_state(7, 7);
    let vote = net[0].propose(newcomer).expect("a vote");
    assert_eq!(vote.gen(), 1);
    assert_eq!(vote.proposals(), vec![newcomer]);
    let decided = settle_votes(&mut net, vote);
    assert_eq!(decided, 4);

    for elder in net.iter() {
        assert_eq!(elder.gen(), 1);
        let before = elder.section_member_states(0).expect("members");
        assert_eq!(before.values(), bootstrap);
        let after = elder.section_member_states(1).expect("members");
        assert_eq!(after.len(), 3);
        assert_eq!(after.get(&newcomer.name), Some(newcomer));
        assert!(matches!(
            elder.section_member_states(2),
            Err(MembershipError::InvalidGeneration(2))
        ));
        assert!(elder.consensus_at_gen(1).is_ok());
        assert!(elder.consensus_at_gen(2).is_ok());
        assert!(matches!(
            elder.consensus_at_gen(3),
            Err(MembershipError::BadGeneration { requested_gen: 3, gen: 1 })
        ));
        assert!(matches!(
            elder.consensus_at_gen(0),
            Err(MembershipError::BadGeneration { requested_gen: 0, gen: 1 })
        ));
    }

    // the next generation: the newcomer leaves
    let vote = net[1].propose(newcomer.left()).expect("a vote");
    assert_eq!(vote.gen(), 2);
    assert_eq!(settle_votes(&mut net, vote), 4);
    let members = net[2].section_member_states(2).expect("members");
    assert_eq!(members.get(&newcomer.name).map(|s| s.state), Some(MembershipState::Left));
    // what was decided before stays what it was
    assert_eq!(net[2].section_member_states(1).expect("members").get(&newcomer.name), Some(newcomer));
}

#[test]
fn a_vote_for_a_decided_generation_changes_nothing() {
    let mut net = elders(4, Vec::new());
    let vote = net[0].propose(m_state(7, 7)).expect("a vote");
    let replay = vote.duplicate();
    assert_eq!(settle_votes(&mut net, vote), 4);
    for elder in net.iter_mut() {
        let r = elder.handle_signed_vote(replay.duplicate()).expect("a response");
        assert!(matches!(r, VoteResponse::WaitingForMoreVotes));
        assert_eq!(elder.gen(), 1);
    }
}

#[test]
fn a_lagging_elder_catches_up_by_anti_entropy() {
    let mut net = elders(4, Vec::new());
    let mut lagging = net.pop().expect("an elder");
    let first = m_state(7, 7);
    let second = m_state(8, 8);
    let vote = net[0].propose(first).expect("a vote");
    assert_eq!(settle_votes(&mut net, vote), 3);
    let vote = net[1].propose(second).expect("a vote");
    assert_eq!(settle_votes(&mut net, vote), 3);
    assert_eq!(net[0].gen(), 2);
    assert_eq!(lagging.gen(), 0);

    let msgs = net[0].anti_entropy(0).expect("votes");
    assert!(msgs.len() >= 2);
    assert_eq!(msgs[0].gen(), 1);
    assert_eq!(msgs[1].gen(), 2);
    assert_eq!(net[0].anti_entropy(1).expect("votes")[0].gen(), 2);
    assert_eq!(net[0].anti_entropy(2).expect("votes").len(), 0);
    assert_eq!(net[0].anti_entropy(9).expect("votes").len(), 0);

    for msg in msgs.iter() {
        let _ = lagging.handle_signed_vote(msg.duplicate()).expect("a response");
    }
    assert_eq!(lagging.gen(), 2);
    let members = lagging.section_member_states(2).expect("members");
    assert_eq!(members.values(), vec![first, second]);
    // taking them in once more changes nothing
    for msg in msgs.iter() {
        let _ = lagging.handle_signed_vote(msg.duplicate()).expect("a response");
    }
    assert_eq!(lagging.gen(), 2);
}

#[test]
fn changes_that_are_out_of_order_are_refused() {
    let member = m_state(0, 1);
    let mut left = m_state(0, 2);
    left.state = MembershipState::Left;
    let mut net = elders(4, vec![member, left]);
    let elder = &mut net[0];

    assert!(matches!(
        elder.validate_node_state(member, 1),
        Err(MembershipError::JoinRequestForExistingMember)
    ));
    assert!(matches!(
        elder.propose(member),
        Err(MembershipError::JoinRequestForExistingMember)
    ));
    assert!(matches!(
        elder.validate_node_state(left, 1),
        Err(MembershipError::LeaveRequestForNonMember)
    ));
    assert!(matches!(
        elder.validate_node_state(m_state(5, 5).left(), 1),
        Err(MembershipError::LeaveRequestForNonMember)
    ));
    assert!(matches!(
        elder.validate_node_state(m_state(5, 5).relocated(m_name(1, 1)), 1),
        Err(MembershipError::LeaveRequestForNonMember)
    ));
    assert!(elder.validate_node_state(member.left(), 1).is_ok());
    assert!(elder.validate_node_state(member.relocated(m_name(1, 1)), 1).is_ok());
    assert!(elder.validate_node_state(m_state(5, 5), 1).is_ok());
    assert!(matches!(
        elder.validate_node_state(m_state(5, 5), 3),
        Err(MembershipError::InvalidGeneration(2))
    ));
    assert_eq!(elder.gen(), 0);
}

#[test]
fn a_full_section_takes_nobody_in() {
    let full: Vec<NodeState> = (0..SOFT_MAX_MEMBERS as u8).map(|i| m_state(1, i)).collect();
    let mut net = elders(4, full.clone());
    assert_eq!(net[0].section_member_states(0).expect("members").len(), SOFT_MAX_MEMBERS);
    assert!(matches!(net[0].propose(m_state(2, 0)), Err(MembershipError::MembersAtCapacity)));
    // with one less there is room for one more
    let mut net = elders(4, full[1..].to_vec());
    assert!(net[0].propose(m_state(2, 0)).is_ok());
}

#[test]
fn a_second_proposal_in_one_generation_is_faulty() {
    let mut net = elders(4, Vec::new());
    assert!(net[0].propose(m_state(7, 7)).is_ok());
    assert!(matches!(
        net[0].propose(m_state(8, 8)),
        Err(MembershipError::AttemptedFaultyProposal)
    ));
}

#[test]
fn a_vote_for_a_generation_that_is_not_next_is_refused() {
    let mut net = elders(4, Vec::new());
    let vote = net[0].sign_vote(5, m_state(7, 7)).expect("a vote");
    assert_eq!(vote.gen(), 5);
    assert!(matches!(
        net[1].handle_signed_vote(vote.duplicate()),
        Err(MembershipError::BadGeneration { requested_gen: 5, gen: 0 })
    ));
    assert!(matches!(
        net[1].validate_proposals(&vote),
        Err(MembershipError::BadGeneration { requested_gen: 5, gen: 0 })
    ));
    let good = net[0].sign_vote(1, m_state(7, 7)).expect("a vote");
    assert!(net[1].validate_proposals(&good).is_ok());
    let cast = net[0].cast_vote(good).expect("a vote");
    assert_eq!(cast.gen(), 1);
    assert_eq!(net[0].gen(), 0);
}

#[test]
fn votes_travel_as_bytes() {
    let mut net = elders(4, Vec::new());
    let vote = net[0].propose(m_state(7, 7)).expect("a vote");
    let bytes = vote.encode().expect("bytes");
    assert_eq!(bytes, bincode::serialize(&vote.inner).expect("bytes"));
    // the receiver reads the vote from the bytes and hands it to the library
    let back = section_core::consensus::SignedVote {
        inner: bincode::deserialize(&bytes).expect("a vote"),
    };
    assert_eq!(back.gen(), 1);
    assert_eq!(back.proposals(), vec![m_state(7, 7)]);
    assert_eq!(settle_votes(&mut net, back), 4);
}

#[test]
fn bytes_that_are_no_key_set_make_no_membership() {
    let sk_set = blsttc::SecretKeySet::random(1, &mut rand::thread_rng());
    let mut bytes = sk_set.public_keys().to_bytes();
    bytes[0] ^= 0x55;
    bytes[5] ^= 0x55;
    let key_set = PublicKeySet::from_bytes(bytes).expect("bytes of the right length");
    let r = Membership::from((0, sk_set.secret_key_share(0usize)), &key_set, 3, Vec::new());
    assert!(matches!(r, Err(MembershipError::InvalidKeySet)));
}

#[test]
fn votes_of_more_voters_than_there_are_elders_are_refused() {
    let sk_set = blsttc::SecretKeySet::random(2, &mut rand::thread_rng());
    let key_set = PublicKeySet::from_bytes(sk_set.public_keys().to_bytes()).expect("a key set");
    let mut net: Vec<Membership> = (0..4usize)
        .map(|i| {
            Membership::from((i as u8, sk_set.secret_key_share(i)), &key_set, 1, vec![])
                .expect("a membership")
        })
        .collect();
    // the only voter that a section of one elder counts is the elder itself
    let vote = net[0].propose(m_state(7, 7)).expect("a vote");
    assert_eq!(vote.gen(), 1);
    assert!(voters_fit(net[0].consensus_at_gen(1).expect("a consensus"), &vote));
    // to another elder the vote is that of a second voter
    assert!(!voters_fit(net[1].consensus_at_gen(1).expect("a consensus"), &vote));
    assert!(matches!(
        net[1].handle_signed_vote(vote.duplicate()),
        Err(MembershipError::TooManyVoters)
    ));
    assert!(matches!(net[1].cast_vote(vote.duplicate()), Err(MembershipError::TooManyVoters)));
    assert_eq!(net[1].gen(), 0);
    assert!(net[1].anti_entropy(0).expect("votes").is_empty());
    // the elder that cast it takes it again
    assert!(matches!(net[0].handle_signed_vote(vote), Ok(VoteResponse::WaitingForMoreVotes)));
}

#[test]
fn an_elder_with_the_zero_key_share_is_refused() {
    let sk_set = blsttc::SecretKeySet::random(2, &mut rand::thread_rng());
    let key_set = PublicKeySet::from_bytes(sk_set.public_keys().to_bytes()).expect("a key set");
    let r = Membership::from((0, blsttc::SecretKeyShare::default()), &key_set, 4, vec![]);
    assert!(matches!(r, Err(MembershipError::InvalidKeyShare)));
}
