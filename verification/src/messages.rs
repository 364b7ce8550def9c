//! What a joining peer and the elders of a section say to each other.

use vstd::prelude::*;
use secured_linked_list::SecuredLinkedList;
use crate::bls::PublicKey;
use crate::node_state::{AuthedNodeState, NodeState};
use crate::sap::{Addr, SectionAuthorityProvider, Signed, SignedSap};
use crate::signed::SignedShare;

verus! {

/// The answer to a resource challenge.
#[derive(Debug)]
pub struct ResourceProofResponse {
    pub solution: u64,
    pub data: Vec<u8>,
    pub nonce: [u8; 32],
    pub nonce_signature: [u8; 64],
}

/// A request to join the section that signs with `section_key`.
#[derive(Debug)]
pub struct JoinRequest {
    /// The key of the section, as far as the peer knows it.
    pub section_key: PublicKey,
    /// The answer to the challenge, once the peer was challenged.
    pub resource_proof_response: Option<ResourceProofResponse>,
    /// The peer's state with the section's signature, once the elders' shares made one.
    pub aggregated: Option<AuthedNodeState>,
}

/// Why a section turns a peer away.
#[derive(Clone, Copy, Debug, PartialEq, Eq)]
pub enum JoinRejectionReason {
    /// The section takes no new peers for now.
    JoinsDisallowed,
    /// The elders could not reach the peer at the address.
    NodeNotReachable(Addr),
}

/// What the elders answer to a request to join.
#[derive(Debug)]
#[allow(inconsistent_fields)]
pub enum JoinResponse {
    /// Prove your resources first.
    ResourceChallenge { data_size: usize, difficulty: u8, nonce: [u8; 32], nonce_signature: [u8; 64] },
    /// Ask again, with what you learn from this: the section's authority, signed, with the
    /// chain that leads to its key, and the age that a new peer has to have.
    Retry {
        section_auth: SectionAuthorityProvider,
        section_signed: Signed,
        proof_chain: SecuredLinkedList,
        expected_age: u8,
    },
    /// Ask these elders instead. The authority comes without a signature.
    Redirect(SectionAuthorityProvider),
    /// One elder's share of the approval.
    ApprovalShare {
        node_state: NodeState,
        sig_share: SignedShare,
        section_auth: SectionAuthorityProvider,
        section_signed: Signed,
        section_chain: SecuredLinkedList,
    },
    /// You are a member.
    Approval {
        genesis_key: PublicKey,
        section_auth: SignedSap,
        node_state: AuthedNodeState,
        section_chain: SecuredLinkedList,
    },
    /// You are turned away.
    Rejected(JoinRejectionReason),
}

/// What came in from a peer, as far as the joining peer tells kinds of messages apart.
#[derive(Debug)]
pub enum Incoming {
    /// A message of a client or for one.
    Service,
    /// A message that carries a share of a section's signature.
    NodeBlsShare,
    /// A message of a node that is an answer to a request to join.
    JoinResponse(JoinResponse),
    /// Any other message of a node.
    OtherNodeMsg,
    /// A message of a node that could not be read.
    Unreadable,
}

/// The answer to a request to join that came in, if that is what came in. Everything else is
/// passed over.
pub fn select_join_response(incoming: Incoming) -> (r: Option<JoinResponse>)
    ensures
        r == (match incoming {
            Incoming::JoinResponse(response) => Some(response),
            _ => None,
        }),
{
    match incoming {
        Incoming::JoinResponse(response) => Some(response),
        _ => None,
    }
}

} // verus!
