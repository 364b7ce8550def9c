//! One elder's share of a section's signature.

use vstd::prelude::*;
use crate::bls::{
    bls_share_signed, bls_share_zero, key_share, share_is_zero, share_valid, sign_share,
    verify_share, PublicKeySet, SignatureShare,
};
use crate::error::NodeError;

verus! {

/// A share of a signature, with the key set it belongs to and the index of the elder that
/// made it.
#[derive(Debug)]
pub struct SignedShare {
    pub public_key_set: PublicKeySet,
    pub index: usize,
    pub signature_share: SignatureShare,
}

impl SignedShare {
    /// Signs the payload with the elder's share of the secret key. Fails where the share is
    /// the zero share, with which nothing can be signed.
    pub fn new(
        public_key_set: PublicKeySet,
        index: usize,
        secret_key_share: &blsttc::SecretKeyShare,
        payload: &[u8],
    ) -> (r: Result<SignedShare, NodeError>)
        ensures
            match r {
                Ok(share) => {
                    &&& !bls_share_zero(*secret_key_share)
                    &&& share.public_key_set@ == public_key_set@
                    &&& share.index == index
                    &&& share.signature_share.bytes@ == bls_share_signed(
                        *secret_key_share,
                        payload@,
                    )
                },
                Err(e) => bls_share_zero(*secret_key_share) && e
                    == NodeError::InvalidSignatureShare,
            },
    {
        if share_is_zero(secret_key_share) {
            return Err(NodeError::InvalidSignatureShare);
        }
        Ok(
            SignedShare {
                public_key_set,
                index,
                signature_share: sign_share(secret_key_share, payload),
            },
        )
    }

    /// Whether the share is good for the payload under the key share of its elder.
    pub open spec fn spec_verify(&self, payload: Seq<u8>) -> bool {
        share_valid(self.public_key_set@, self.index as u64, self.signature_share.bytes@, payload)
    }

    /// Whether the share is good for the payload under the key share of its elder.
    pub fn verify(&self, payload: &[u8]) -> (ok: bool)
        ensures
            ok == self.spec_verify(payload@),
    {
        match key_share(&self.public_key_set, self.index as u64) {
            Some(key) => verify_share(&key, &self.signature_share, payload),
            None => false,
        }
    }
}

impl Clone for SignedShare {
    fn clone(&self) -> (copy: Self)
        ensures
            copy.public_key_set@ == self.public_key_set@,
            copy.index == self.index,
            copy.signature_share == self.signature_share,
    {
        SignedShare {
            public_key_set: self.public_key_set.clone(),
            index: self.index,
            signature_share: self.signature_share,
        }
    }
}

} // verus!
