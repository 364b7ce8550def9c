//! The ways in which the operations of this library fail.

use vstd::prelude::*;
use crate::bls::PublicKey;
use crate::chain::ChainError;
use crate::sap::Addr;

verus! {

/// Why an operation on network knowledge or a step of joining failed.
#[derive(Clone, Copy, Debug, PartialEq, Eq)]
pub enum NodeError {
    /// A signature is not good for what it is said to sign.
    InvalidSignature,
    /// Something could not be turned into bytes to be signed.
    InvalidPayload,
    /// A signature share is not good, or shares did not combine.
    InvalidSignatureShare,
    /// A chain of keys does not verify, or starts at no key that is trusted.
    UntrustedProofChain,
    /// A section authority provider is not vouched for by the key it should be.
    UntrustedSectionAuthProvider,
    /// A prefix map was made for another network; the key is its genesis key.
    InvalidGenesisKey(PublicKey),
    /// The network could not reach the joining peer at the address.
    NodeNotReachable(Addr),
    /// The network takes no new peers for now.
    TryJoinLater,
    /// Messages stopped coming while the peer was joining.
    InvalidState,
    /// No known section is responsible for a name.
    NoMatchingSection,
    /// A chain refused an operation.
    Chain(ChainError),
}

} // verus!
