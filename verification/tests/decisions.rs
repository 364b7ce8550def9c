use section_core::aggregator::{add_step, AddStep, AggregatorError};
use section_core::bls::PublicKey;
use section_core::error::NodeError;
use section_core::join::{retry_step, share_step, RetryStep, ShareStep};
use section_core::knowledge::{new_decision, should_switch, NewFacts};
use section_core::membership::{validate_change, MembershipError, SOFT_MAX_MEMBERS};
use section_core::name::Name;
use section_core::name_map::NameMap;
use section_core::node_state::{MembershipState, NodeState};
use section_core::prefix_map::{update_decision, Known, UpdateFacts};
use section_core::sap::{Addr, Ip, Peer};

const GOOD: UpdateFacts = UpdateFacts {
    verifies: true,
    signed_by_section_key: true,
    chain_ends_in_key: true,
    chain_verifies: true,
    root_trusted: true,
    known: Known::Nothing,
};

#[test]
fn an_update_is_stored_left_alone_or_refused() {
    assert!(matches!(update_decision(GOOD), Ok(true)));
    assert!(matches!(update_decision(UpdateFacts { known: Known::SameKey, ..GOOD }), Ok(false)));
    assert!(matches!(update_decision(UpdateFacts { known: Known::EarlierKey, ..GOOD }), Ok(true)));
    assert!(matches!(
        update_decision(UpdateFacts { known: Known::OtherKey, ..GOOD }),
        Err(NodeError::UntrustedSectionAuthProvider)
    ));
    assert!(matches!(
        update_decision(UpdateFacts { verifies: false, ..GOOD }),
        Err(NodeError::InvalidSignature)
    ));
    assert!(matches!(
        update_decision(UpdateFacts { signed_by_section_key: false, ..GOOD }),
        Err(NodeError::UntrustedSectionAuthProvider)
    ));
    assert!(matches!(
        update_decision(UpdateFacts { chain_ends_in_key: false, ..GOOD }),
        Err(NodeError::UntrustedSectionAuthProvider)
    ));
    assert!(matches!(
        update_decision(UpdateFacts { chain_verifies: false, ..GOOD }),
        Err(NodeError::UntrustedProofChain)
    ));
    assert!(matches!(
        update_decision(UpdateFacts { root_trusted: false, ..GOOD }),
        Err(NodeError::UntrustedProofChain)
    ));
    // the first check that fails decides
    assert!(matches!(
        update_decision(UpdateFacts { verifies: false, chain_verifies: false, root_trusted: false, ..GOOD }),
        Err(NodeError::InvalidSignature)
    ));
}

#[test]
fn knowledge_is_made_only_of_parts_that_fit() {
    let well = NewFacts {
        chain_starts_at_genesis: true,
        chain_ends_in_key: true,
        verifies: true,
        signed_by_section_key: true,
        chain_verifies: true,
        other_genesis: None,
    };
    assert!(new_decision(well).is_none());
    assert!(matches!(
        new_decision(NewFacts { chain_starts_at_genesis: false, ..well }),
        Some(NodeError::UntrustedProofChain)
    ));
    assert!(matches!(
        new_decision(NewFacts { chain_ends_in_key: false, ..well }),
        Some(NodeError::UntrustedSectionAuthProvider)
    ));
    assert!(matches!(
        new_decision(NewFacts { verifies: false, ..well }),
        Some(NodeError::UntrustedSectionAuthProvider)
    ));
    assert!(matches!(
        new_decision(NewFacts { signed_by_section_key: false, ..well }),
        Some(NodeError::UntrustedSectionAuthProvider)
    ));
    assert!(matches!(
        new_decision(NewFacts { chain_verifies: false, ..well }),
        Some(NodeError::UntrustedProofChain)
    ));
    let other = PublicKey { bytes: [7; 48] };
    match new_decision(NewFacts { other_genesis: Some(other), ..well }) {
        Some(NodeError::InvalidGenesisKey(key)) => assert_eq!(key, other),
        r => panic!("{:?}", r),
    }
    assert!(matches!(
        new_decision(NewFacts { chain_verifies: false, other_genesis: Some(other), ..well }),
        Some(NodeError::UntrustedProofChain)
    ));
}

#[test]
fn a_node_switches_in_its_own_section_as_an_adult_or_with_a_key_share() {
    assert!(should_switch(true, false, false));
    assert!(should_switch(true, false, true));
    assert!(should_switch(true, true, true));
    assert!(!should_switch(true, true, false));
    assert!(!should_switch(false, false, false));
    assert!(!should_switch(false, false, true));
    assert!(!should_switch(false, true, true));
}

#[test]
fn a_share_is_refused_passed_over_kept_or_combined() {
    assert_eq!(add_step(false, false, false, 0, 0), AddStep::Faulty);
    assert_eq!(add_step(false, true, true, 9, 2), AddStep::Faulty);
    assert_eq!(add_step(true, true, false, 0, 2), AddStep::Already);
    assert_eq!(add_step(true, true, true, 0, 2), AddStep::Already);
    assert_eq!(add_step(true, false, true, 1, 2), AddStep::Duplicate);
    assert_eq!(add_step(true, false, false, 0, 2), AddStep::Waiting);
    assert_eq!(add_step(true, false, false, 1, 2), AddStep::Waiting);
    assert_eq!(add_step(true, false, false, 2, 2), AddStep::Combine);
    assert_eq!(add_step(true, false, false, 0, 0), AddStep::Combine);
    assert_eq!(add_step(true, false, false, usize::MAX, usize::MAX), AddStep::Combine);
}

#[test]
fn an_answer_that_sends_the_peer_back_is_passed_over_or_taken_up() {
    assert_eq!(retry_step(false, Some(true), 5, 5, false), RetryStep::Ignore);
    assert_eq!(retry_step(true, None, 5, 98, false), RetryStep::Ignore);
    assert_eq!(retry_step(true, Some(true), 5, 5, false), RetryStep::Resend);
    assert_eq!(retry_step(true, Some(false), 5, 5, false), RetryStep::Ignore);
    // the age is not the expected one: lower, higher, or in between
    assert_eq!(retry_step(true, Some(false), 5, 98, false), RetryStep::Regenerate);
    assert_eq!(retry_step(true, Some(true), 4, 98, false), RetryStep::Regenerate);
    assert_eq!(retry_step(true, Some(true), 6, 98, false), RetryStep::Regenerate);
    assert_eq!(retry_step(true, Some(true), 100, 98, false), RetryStep::Regenerate);
    assert_eq!(retry_step(true, Some(true), 50, 98, false), RetryStep::Regenerate);
    assert_eq!(retry_step(true, Some(false), 50, 98, false), RetryStep::Regenerate);
    // the expected age is kept
    assert_eq!(retry_step(true, Some(true), 98, 98, false), RetryStep::Resend);
    assert_eq!(retry_step(true, Some(false), 98, 98, false), RetryStep::Ignore);
    // once shares have made a signature the identity stays
    assert_eq!(retry_step(true, Some(true), 5, 98, true), RetryStep::Resend);
    assert_eq!(retry_step(true, Some(false), 5, 98, true), RetryStep::Ignore);
}

#[test]
fn a_share_that_was_added_is_answered() {
    assert_eq!(share_step(Ok(()), true), ShareStep::SendApproval);
    assert_eq!(share_step(Ok(()), false), ShareStep::SendApproval);
    assert_eq!(share_step(Err(AggregatorError::NotEnoughShares), false), ShareStep::Wait);
    assert_eq!(share_step(Err(AggregatorError::FaultyShare), true), ShareStep::Wait);
    assert_eq!(share_step(Err(AggregatorError::FaultyShare), false), ShareStep::AskAgain);
    assert_eq!(share_step(Err(AggregatorError::AlreadyAggregated), true), ShareStep::Wait);
    assert_eq!(share_step(Err(AggregatorError::AlreadyAggregated), false), ShareStep::AskAgain);
}

fn d_state(first: u8) -> NodeState {
    let mut bytes = [0u8; 32];
    bytes[0] = first;
    NodeState::joined(Peer::new(Name { bytes }, Addr { ip: Ip::V4([1, 2, 3, 4]), port: 1 }), None)
}

#[test]
fn a_change_is_held_against_the_members() {
    let mut members: NameMap<NodeState> = NameMap::new();
    let alice = d_state(1);
    let bob = d_state(2);
    assert!(validate_change(&members, &alice).is_ok());
    assert!(matches!(
        validate_change(&members, &alice.left()),
        Err(MembershipError::LeaveRequestForNonMember)
    ));
    let _ = members.insert(alice.name, alice);
    assert!(matches!(
        validate_change(&members, &alice),
        Err(MembershipError::JoinRequestForExistingMember)
    ));
    assert!(validate_change(&members, &alice.left()).is_ok());
    assert!(validate_change(&members, &alice.relocated(bob.name)).is_ok());
    assert!(validate_change(&members, &bob).is_ok());
    let _ = members.insert(bob.name, bob.left());
    assert!(matches!(
        validate_change(&members, &bob.relocated(alice.name)),
        Err(MembershipError::LeaveRequestForNonMember)
    ));
    assert!(matches!(
        validate_change(&members, &bob),
        Err(MembershipError::JoinRequestForExistingMember)
    ));
    for i in 3..=SOFT_MAX_MEMBERS as u8 {
        assert!(validate_change(&members, &d_state(i)).is_ok());
        let _ = members.insert(d_state(i).name, d_state(i));
    }
    assert_eq!(members.len(), SOFT_MAX_MEMBERS);
    assert!(matches!(validate_change(&members, &d_state(200)), Err(MembershipError::MembersAtCapacity)));
    assert_eq!(members.get(&bob.name).map(|s| s.state), Some(MembershipState::Left));
}
