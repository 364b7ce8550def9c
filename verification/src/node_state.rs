//! What a section records of one of its members.

use vstd::prelude::*;
use vstd::bytes::*;
use secured_linked_list::SecuredLinkedList;
use crate::bls::bls_verifies;
use crate::chain::{chain_has_key, spec_has_key};
use crate::name::Name;
use crate::sap::{encode_addr, spec_encode_addr, Addr, Signed, Peer};

verus! {

/// Members of this age or more are adults.
pub const MIN_ADULT_AGE: u8 = 5;

/// The age of the peer that founded the network.
pub const FIRST_NODE_AGE: u8 = 255;

/// Where a member stands with its section.
#[derive(Clone, Copy, Debug, PartialEq, Eq)]
pub enum MembershipState {
    /// It is a member.
    Joined,
    /// It went away.
    Left,
    /// It was moved to the section that the name belongs to.
    Relocated(Name),
}

/// The state of one member: who it is, where it can be reached, where it stands, and under
/// which name it was known before it was moved here.
#[derive(Clone, Copy, Debug, PartialEq, Eq)]
pub struct NodeState {
    pub name: Name,
    pub addr: Addr,
    pub state: MembershipState,
    pub previous_name: Option<Name>,
}

/// A member's state with the signature of the section that vouches for it.
#[derive(Clone, Copy, Debug, PartialEq, Eq)]
pub struct AuthedNodeState {
    pub value: NodeState,
    pub sig: Signed,
}

impl MembershipState {
    /// Whether the two are the same.
    pub fn same(&self, other: &MembershipState) -> (r: bool)
        ensures
            r == (*self == *other),
    {
        match (self, other) {
            (MembershipState::Joined, MembershipState::Joined) => true,
            (MembershipState::Left, MembershipState::Left) => true,
            (MembershipState::Relocated(a), MembershipState::Relocated(b)) => a.same(b),
            _ => false,
        }
    }

    /// Whether this is the state of a member.
    pub fn is_joined(&self) -> (r: bool)
        ensures
            r == (*self == MembershipState::Joined),
    {
        match self {
            MembershipState::Joined => true,
            _ => false,
        }
    }
}

/// A member's state as the bytes that its section signs: the name, the address, the state
/// (its number as four bytes, and the destination where there is one), and the previous name
/// behind a byte that says whether there is one.
pub open spec fn spec_encode_node_state(state: NodeState) -> Seq<u8> {
    state.name.bytes@ + spec_encode_addr(state.addr) + (match state.state {
        MembershipState::Joined => spec_u32_to_le_bytes(0),
        MembershipState::Left => spec_u32_to_le_bytes(1),
        MembershipState::Relocated(dst) => spec_u32_to_le_bytes(2) + dst.bytes@,
    }) + (match state.previous_name {
        None => seq![0u8],
        Some(name) => seq![1u8] + name.bytes@,
    })
}

impl NodeState {
    /// The state of a peer that has just joined.
    pub fn joined(peer: Peer, previous_name: Option<Name>) -> (state: NodeState)
        ensures
            state == (NodeState {
                name: peer.name,
                addr: peer.addr,
                state: MembershipState::Joined,
                previous_name,
            }),
    {
        NodeState { name: peer.name, addr: peer.addr, state: MembershipState::Joined, previous_name }
    }

    /// The state of the same member once it has left.
    pub fn left(&self) -> (state: NodeState)
        ensures
            state == (NodeState { state: MembershipState::Left, ..*self }),
    {
        NodeState {
            name: self.name,
            addr: self.addr,
            state: MembershipState::Left,
            previous_name: self.previous_name,
        }
    }

    /// The state of the same member once it has been moved to the section of `dst`.
    pub fn relocated(&self, dst: Name) -> (state: NodeState)
        ensures
            state == (NodeState { state: MembershipState::Relocated(dst), ..*self }),
    {
        NodeState {
            name: self.name,
            addr: self.addr,
            state: MembershipState::Relocated(dst),
            previous_name: self.previous_name,
        }
    }

    /// The peer: the name and the address.
    pub fn peer(&self) -> (peer: Peer)
        ensures
            peer == (Peer { name: self.name, addr: self.addr }),
    {
        Peer { name: self.name, addr: self.addr }
    }

    /// The member's age, which its name carries.
    pub fn age(&self) -> (age: u8)
        ensures
            age == self.name.bytes[31],
    {
        self.name.age()
    }

    /// Whether the two are the same.
    pub fn same(&self, other: &NodeState) -> (r: bool)
        ensures
            r == (*self == *other),
    {
        if !self.name.same(&other.name) || !self.addr.same(&other.addr) || !self.state.same(
            &other.state,
        ) {
            return false;
        }
        match (&self.previous_name, &other.previous_name) {
            (None, None) => true,
            (Some(a), Some(b)) => a.same(b),
            _ => false,
        }
    }

    /// The bytes that the section signs.
    pub fn encode(&self) -> (bytes: Vec<u8>)
        ensures
            bytes@ == spec_encode_node_state(*self),
    {
        let mut out: Vec<u8> = Vec::new();
        out.extend_from_slice(self.name.bytes.as_slice());
        encode_addr(&mut out, &self.addr);
        match &self.state {
            MembershipState::Joined => {
                let tag = u32_to_le_bytes(0);
                out.extend_from_slice(tag.as_slice());
            },
            MembershipState::Left => {
                let tag = u32_to_le_bytes(1);
                out.extend_from_slice(tag.as_slice());
            },
            MembershipState::Relocated(dst) => {
                let tag = u32_to_le_bytes(2);
                out.extend_from_slice(tag.as_slice());
                out.extend_from_slice(dst.bytes.as_slice());
            },
        }
        match &self.previous_name {
            None => {
                out.push(0u8);
            },
            Some(name) => {
                out.push(1u8);
                out.extend_from_slice(name.bytes.as_slice());
            },
        }
        assert(out@ =~= spec_encode_node_state(*self));
        out
    }
}

impl AuthedNodeState {
    /// Whether the signature is good for the state's bytes under the key that comes with it.
    pub open spec fn spec_self_verify(&self) -> bool {
        bls_verifies(
            self.sig.public_key.bytes@,
            self.sig.signature.bytes@,
            spec_encode_node_state(self.value),
        )
    }

    /// Whether the signature is good and made with a key of the chain.
    pub open spec fn spec_verify(&self, chain: SecuredLinkedList) -> bool {
        spec_has_key(chain, self.sig.public_key.bytes@) && self.spec_self_verify()
    }

    /// The state with the signature under it.
    pub fn new(value: NodeState, sig: Signed) -> (authed: AuthedNodeState)
        ensures
            authed == (AuthedNodeState { value, sig }),
    {
        AuthedNodeState { value, sig }
    }

    /// Whether the signature is good for the state's bytes under the key that comes with it.
    pub fn self_verify(&self) -> (ok: bool)
        ensures
            ok == self.spec_self_verify(),
    {
        let payload = self.value.encode();
        self.sig.verify(payload.as_slice())
    }

    /// Whether the signature is good and made with a key of the chain.
    pub fn verify(&self, chain: &SecuredLinkedList) -> (ok: bool)
        ensures
            ok == self.spec_verify(*chain),
    {
        chain_has_key(chain, &self.sig.public_key) && self.self_verify()
    }

    /// Whether the two are the same.
    pub fn same(&self, other: &AuthedNodeState) -> (r: bool)
        ensures
            r == (*self == *other),
    {
        self.value.same(&other.value) && self.sig.same(&other.sig)
    }
}

} // verus!
