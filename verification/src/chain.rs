//! The section chain: keys linked by signatures, each key signed by the one before it.
//!
//! The chain itself is `secured_linked_list::SecuredLinkedList`. This file says what the
//! library relies on: which keys a chain holds, which of them lie on its main branch, and what
//! each operation that the library uses does to them.

use vstd::prelude::*;
use secured_linked_list::SecuredLinkedList;
use crate::bls::{bls_key_valid, PublicKey};

verus! {

/// `secured_linked_list::SecuredLinkedList`, as the verifier is to see it: a value that is
/// known only by what the functions below say of it.
#[verifier::external_type_specification]
#[verifier::external_body]
pub struct ExSecuredLinkedList(SecuredLinkedList);

/// Why an operation on a chain failed.
#[derive(Clone, Copy, PartialEq, Eq, Structural, Debug)]
pub enum ChainError {
    /// A key that the operation names is not in the chain.
    KeyNotFound,
    /// Both keys are in the chain, but the first is no ancestor of the second.
    SubChainNotFound,
    /// Neither chain holds the root of the other.
    InvalidOperation,
}

/// The keys of a chain in the chain's own order, the root first, as `SecuredLinkedList::keys`
/// hands them out.
pub uninterp spec fn chain_keys(chain: SecuredLinkedList) -> Seq<Seq<u8>>;

/// The keys of a chain's main branch, which `SecuredLinkedList::main_branch_len` counts:
/// from the root down to the last key.
pub uninterp spec fn chain_branch(chain: SecuredLinkedList) -> Seq<Seq<u8>>;

/// Whether every key of the chain but the root is signed by its parent, as
/// `SecuredLinkedList::self_verify` finds.
pub uninterp spec fn chain_verified(chain: SecuredLinkedList) -> bool;

/// The keys that `SecuredLinkedList::get_proof_chain` puts into the chain it builds, or `None`
/// where it fails.
pub uninterp spec fn chain_path(chain: SecuredLinkedList, from: Seq<u8>, to: Seq<u8>) -> Option<
    Seq<Seq<u8>>,
>;

/// The chain that `SecuredLinkedList::join` makes of a chain and another that is joined to
/// it, where it succeeds.
pub uninterp spec fn chain_joined(chain: SecuredLinkedList, other: SecuredLinkedList) -> SecuredLinkedList;

/// The root of a chain.
pub open spec fn spec_root(chain: SecuredLinkedList) -> Seq<u8> {
    chain_keys(chain)[0]
}

/// The last key of a chain.
pub open spec fn spec_last(chain: SecuredLinkedList) -> Seq<u8> {
    chain_keys(chain).last()
}

/// Whether the chain holds the key.
pub open spec fn spec_has_key(chain: SecuredLinkedList, key: Seq<u8>) -> bool {
    chain_keys(chain).contains(key)
}

/// Calls `SecuredLinkedList::new`, after `PublicKey::from_bytes`. A chain of one key has that
/// key as its root and its only key, and verifies, having no signature to check.
#[verifier::external_body]
pub(crate) fn chain_new(root: &PublicKey) -> (r: Option<SecuredLinkedList>)
    ensures
        r is Some <==> bls_key_valid(root.bytes@),
        r matches Some(chain) ==> chain_keys(chain) == seq![root.bytes@] && chain_branch(chain)
            == seq![root.bytes@] && chain_verified(chain),
{
    match blsttc::PublicKey::from_bytes(root.bytes) {
        Ok(key) => Some(SecuredLinkedList::new(key)),
        Err(_) => None,
    }
}

/// Calls `Clone::clone` on a chain.
#[verifier::external_body]
pub(crate) fn chain_clone(chain: &SecuredLinkedList) -> (copy: SecuredLinkedList)
    ensures
        copy == *chain,
{
    chain.clone()
}

/// Calls `SecuredLinkedList::root_key`. A chain always has a root, and its main branch starts
/// there.
#[verifier::external_body]
pub(crate) fn chain_root_key(chain: &SecuredLinkedList) -> (key: PublicKey)
    ensures
        spec_has_key(*chain, key.bytes@),
        key.bytes@ == spec_root(*chain),
        chain_branch(*chain).contains(key.bytes@),
        key.bytes@ == chain_branch(*chain)[0],
{
    PublicKey { bytes: chain.root_key().to_bytes() }
}

/// Calls `SecuredLinkedList::last_key`: the key of the last block, or the root where there is
/// no block. The main branch ends there.
#[verifier::external_body]
pub(crate) fn chain_last_key(chain: &SecuredLinkedList) -> (key: PublicKey)
    ensures
        spec_has_key(*chain, key.bytes@),
        key.bytes@ == spec_last(*chain),
        chain_branch(*chain).contains(key.bytes@),
        key.bytes@ == chain_branch(*chain).last(),
{
    PublicKey { bytes: chain.last_key().to_bytes() }
}

/// Calls `SecuredLinkedList::has_key`, after `PublicKey::from_bytes`; bytes that are no key
/// are in no chain.
#[verifier::external_body]
pub(crate) fn chain_has_key(chain: &SecuredLinkedList, key: &PublicKey) -> (found: bool)
    ensures
        found == spec_has_key(*chain, key.bytes@),
{
    match blsttc::PublicKey::from_bytes(key.bytes) {
        Ok(k) => chain.has_key(&k),
        Err(_) => false,
    }
}

/// Calls `SecuredLinkedList::keys` and hands out each key's bytes.
#[verifier::external_body]
pub(crate) fn chain_key_list(chain: &SecuredLinkedList) -> (keys: Vec<PublicKey>)
    ensures
        keys@.len() == chain_keys(*chain).len(),
        forall|i: int| 0 <= i < keys@.len() ==> (#[trigger] keys@[i]).bytes@ == chain_keys(*chain)[i],
{
    chain.keys().map(|k| PublicKey { bytes: k.to_bytes() }).collect()
}

/// Calls `SecuredLinkedList::main_branch_len`.
#[verifier::external_body]
pub(crate) fn chain_main_branch_len(chain: &SecuredLinkedList) -> (n: usize)
    ensures
        n == chain_branch(*chain).len(),
        n >= 1,
{
    chain.main_branch_len()
}

/// Calls `SecuredLinkedList::self_verify`.
#[verifier::external_body]
pub(crate) fn chain_self_verify(chain: &SecuredLinkedList) -> (ok: bool)
    ensures
        ok == chain_verified(*chain),
{
    chain.self_verify()
}

/// Calls `SecuredLinkedList::get_proof_chain`, after reading both keys from their bytes.
///
/// It fails with `KeyNotFound` where a key is missing and with `SubChainNotFound` where the
/// walk from `to` towards the root does not pass `from`; two equal keys that the chain holds
/// always give a chain. The chain it builds runs from `from` to `to` without a fork, holds
/// only keys of the chain it was cut from, and carries each block with the signature and the
/// parent that it had there: so it verifies where that chain does.
#[verifier::external_body]
pub(crate) fn chain_get_proof_chain(chain: &SecuredLinkedList, from: &PublicKey, to: &PublicKey) -> (r:
    Result<SecuredLinkedList, ChainError>)
    ensures
        match r {
            Ok(sub) => {
                &&& chain_path(*chain, from.bytes@, to.bytes@) == Some(chain_keys(sub))
                &&& chain_branch(sub) == chain_keys(sub)
                &&& chain_keys(sub).len() >= 1
                &&& spec_root(sub) == from.bytes@
                &&& spec_last(sub) == to.bytes@
                &&& forall|k: Seq<u8>| #[trigger]
                    spec_has_key(sub, k) ==> spec_has_key(*chain, k)
                &&& chain_verified(*chain) ==> chain_verified(sub)
            },
            Err(e) => {
                &&& chain_path(*chain, from.bytes@, to.bytes@) is None
                &&& e != ChainError::InvalidOperation
                &&& e == ChainError::KeyNotFound <==> !(spec_has_key(*chain, from.bytes@)
                    && spec_has_key(*chain, to.bytes@))
            },
        },
        from.bytes@ == to.bytes@ && spec_has_key(*chain, from.bytes@) ==> r is Ok,
{
    match (blsttc::PublicKey::from_bytes(from.bytes), blsttc::PublicKey::from_bytes(to.bytes)) {
        (Ok(f), Ok(t)) => match chain.get_proof_chain(&f, &t) {
            Ok(sub) => Ok(sub),
            Err(secured_linked_list::error::Error::KeyNotFound) => Err(ChainError::KeyNotFound),
            Err(_) => Err(ChainError::SubChainNotFound),
        },
        _ => Err(ChainError::KeyNotFound),
    }
}

/// Calls `SecuredLinkedList::join`.
///
/// It succeeds exactly where one chain holds the root of the other, and otherwise leaves the
/// chain as it was. On success the chain is given its name; it holds the keys of both and no
/// others, under the root of the chain that held the other's root. Nothing is claimed of the
/// order of the keys, of the main branch, or of whether the joined chain verifies.
#[verifier::external_body]
pub(crate) fn chain_join(chain: &mut SecuredLinkedList, other: SecuredLinkedList) -> (r: Result<
    (),
    ChainError,
>)
    ensures
        r is Ok <==> spec_has_key(*old(chain), spec_root(other)) || spec_has_key(
            other,
            spec_root(*old(chain)),
        ),
        r is Ok ==> {
            &&& *final(chain) == chain_joined(*old(chain), other)
            &&& forall|k: Seq<u8>| #[trigger]
                spec_has_key(*final(chain), k) <==> spec_has_key(*old(chain), k) || spec_has_key(
                    other,
                    k,
                )
            &&& spec_root(*final(chain)) == (if spec_has_key(*old(chain), spec_root(other)) {
                spec_root(*old(chain))
            } else {
                spec_root(other)
            })
        },
        r matches Err(e) ==> e == ChainError::InvalidOperation && *final(chain) == *old(chain),
{
    match chain.join(other) {
        Ok(()) => Ok(()),
        Err(_) => Err(ChainError::InvalidOperation),
    }
}

} // verus!
