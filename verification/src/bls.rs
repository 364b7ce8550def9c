//! BLS keys and signatures as the library holds them: by their compressed bytes.
//!
//! Everything that needs the curve is asked of `blsttc`; the functions that do the asking are
//! few and stand together at the end of this file.

use vstd::prelude::*;

verus! {

/// Length of a compressed public key.
pub const PK_SIZE: usize = 48;

/// Length of a compressed signature.
pub const SIG_SIZE: usize = 96;

/// A BLS public key, compressed.
#[derive(Clone, Copy, Debug, PartialEq, Eq)]
pub struct PublicKey {
    pub bytes: [u8; 48],
}

/// A BLS signature, compressed.
#[derive(Clone, Copy, Debug, PartialEq, Eq)]
pub struct Signature {
    pub bytes: [u8; 96],
}

/// One elder's share of a threshold signature, compressed.
#[derive(Clone, Copy, Debug, PartialEq, Eq)]
pub struct SignatureShare {
    pub bytes: [u8; 96],
}

/// The public side of a threshold key: the commitment's coefficients, each a compressed
/// point of 48 bytes, one after the other. The first one is the section key.
#[derive(Debug)]
pub struct PublicKeySet {
    bytes: Vec<u8>,
}

impl Clone for PublicKeySet {
    fn clone(&self) -> (copy: Self)
        ensures
            copy@ == self@,
    {
        proof {
            use_type_invariant(self);
        }
        PublicKeySet { bytes: self.bytes.clone() }
    }
}

impl View for PublicKeySet {
    type V = Seq<u8>;

    closed spec fn view(&self) -> Seq<u8> {
        self.bytes@
    }
}

/// Compares two byte arrays of one length.
pub fn bytes_eq<const N: usize>(a: &[u8; N], b: &[u8; N]) -> (same: bool)
    ensures
        same == (a@ == b@),
        same == (*a == *b),
{
    let mut i: usize = 0;
    while i < N
        invariant
            i <= N,
            forall|k: int| 0 <= k < i ==> a[k] == b[k],
        decreases N - i,
    {
        if a[i] != b[i] {
            return false;
        }
        i += 1;
    }
    assert(a@ =~= b@);
    assert(*a =~= *b);
    true
}

/// Compares two byte strings.
pub fn slices_eq(a: &[u8], b: &[u8]) -> (same: bool)
    ensures
        same == (a@ == b@),
{
    if a.len() != b.len() {
        return false;
    }
    let mut i: usize = 0;
    while i < a.len()
        invariant
            i <= a.len(),
            a.len() == b.len(),
            forall|k: int| 0 <= k < i ==> a[k] == b[k],
        decreases a.len() - i,
    {
        if a[i] != b[i] {
            return false;
        }
        i += 1;
    }
    assert(a@ =~= b@);
    true
}

impl PublicKey {
    /// Whether the two are the same.
    pub fn same(&self, other: &PublicKey) -> (r: bool)
        ensures
            r == (*self == *other),
            r == (self.bytes@ == other.bytes@),
    {
        bytes_eq(&self.bytes, &other.bytes)
    }
}

impl Signature {
    /// Whether the two are the same.
    pub fn same(&self, other: &Signature) -> (r: bool)
        ensures
            r == (*self == *other),
            r == (self.bytes@ == other.bytes@),
    {
        bytes_eq(&self.bytes, &other.bytes)
    }
}

impl SignatureShare {
    /// Whether the two are the same.
    pub fn same(&self, other: &SignatureShare) -> (r: bool)
        ensures
            r == (*self == *other),
            r == (self.bytes@ == other.bytes@),
    {
        bytes_eq(&self.bytes, &other.bytes)
    }
}

/// Whether the bytes have the form of a key set: one coefficient at least, and no stray bytes.
pub open spec fn spec_key_set_bytes(bytes: Seq<u8>) -> bool {
    bytes.len() >= 48 && bytes.len() % 48 == 0
}

/// The section key of a key set given by its bytes: its first coefficient.
pub open spec fn spec_public_key(key_set: Seq<u8>) -> Seq<u8> {
    key_set.subrange(0, 48)
}

/// The threshold of a key set given by its bytes: one less than its number of coefficients.
/// Any `threshold + 1` shares make a signature.
pub open spec fn spec_threshold(key_set: Seq<u8>) -> int {
    key_set.len() / 48 - 1
}

impl PublicKeySet {
    /// A key set has at least one coefficient and no stray bytes. Every key set that the
    /// program holds is of this form.
    #[verifier::type_invariant]
    pub open spec fn well_formed(&self) -> bool {
        spec_key_set_bytes(self@)
    }

    /// The key set with the given bytes, if they are those of a key set.
    pub fn from_bytes(bytes: Vec<u8>) -> (r: Option<PublicKeySet>)
        ensures
            r is Some <==> spec_key_set_bytes(bytes@),
            r matches Some(set) ==> set@ == bytes@ && set.well_formed(),
    {
        if bytes.len() >= 48 && bytes.len() % 48 == 0 {
            Some(PublicKeySet { bytes })
        } else {
            None
        }
    }

    /// The bytes of a key set are no more than a machine can count.
    pub proof fn lemma_len(&self)
        ensures
            self@.len() <= usize::MAX,
    {
        let _ = self.bytes.len();
    }

    /// The key set's bytes.
    pub fn as_bytes(&self) -> (bytes: &[u8])
        ensures
            bytes@ == self@,
            spec_key_set_bytes(self@),
    {
        proof {
            use_type_invariant(self);
        }
        self.bytes.as_slice()
    }

    /// The key that signatures combined from this set's shares verify under.
    pub fn public_key(&self) -> (key: PublicKey)
        ensures
            key.bytes@ == spec_public_key(self@),
    {
        proof {
            use_type_invariant(self);
        }
        let mut bytes: [u8; 48] = [0u8; 48];
        let mut i: usize = 0;
        while i < 48
            invariant
                i <= 48,
                self@.len() >= 48,
                forall|k: int| 0 <= k < i ==> bytes[k] == self@[k],
            decreases 48 - i,
        {
            bytes[i] = self.bytes[i];
            i += 1;
        }
        assert(bytes@ =~= spec_public_key(self@));
        PublicKey { bytes }
    }

    /// How many shares may be missing: any `threshold() + 1` of them make a signature.
    pub fn threshold(&self) -> (t: usize)
        ensures
            t == spec_threshold(self@),
    {
        proof {
            use_type_invariant(self);
        }
        self.bytes.len() / 48 - 1
    }

    /// Whether the two are the same.
    pub fn same(&self, other: &PublicKeySet) -> (r: bool)
        ensures
            r == (self@ == other@),
    {
        slices_eq(self.bytes.as_slice(), other.bytes.as_slice())
    }
}

/// `blsttc::SecretKeyShare`, a share of a secret key, as the verifier is to see it: a value of
/// which nothing is known.
#[verifier::external_type_specification]
#[verifier::external_body]
pub struct ExSecretKeyShare(blsttc::SecretKeyShare);

/// `blsttc::SecretKeySet`, the secret side of a threshold key, as the verifier is to see it:
/// a value of which nothing is known.
#[verifier::external_type_specification]
#[verifier::external_body]
pub struct ExSecretKeySet(blsttc::SecretKeySet);

/// Whether 48 bytes are a public key, as `blsttc::PublicKey::from_bytes` finds.
pub uninterp spec fn bls_key_valid(key: Seq<u8>) -> bool;

/// Whether a signature is good for a message under a key, as `blsttc::PublicKey::verify`
/// says once both have been read from their bytes; `false` where either cannot be read.
pub uninterp spec fn bls_verifies(key: Seq<u8>, sig: Seq<u8>, msg: Seq<u8>) -> bool;

/// Whether a share is good for a message under one elder's key share, as
/// `blsttc::PublicKeyShare::verify` says; `false` where either cannot be read.
pub uninterp spec fn bls_share_verifies(share_key: Seq<u8>, share: Seq<u8>, msg: Seq<u8>) -> bool;

/// The key share that `blsttc::PublicKeySet::public_key_share` derives for the elder with the
/// given index; `None` where the key set cannot be read.
pub uninterp spec fn bls_key_share(key_set: Seq<u8>, index: u64) -> Option<Seq<u8>>;

/// What `blsttc::PublicKeySet::combine_signatures` makes of the shares, each with its elder's
/// index; `None` where it gives an error or anything cannot be read.
pub uninterp spec fn bls_combined(key_set: Seq<u8>, shares: Seq<(u64, Seq<u8>)>) -> Option<Seq<u8>>;

/// The bytes of the public key set that `blsttc::SecretKeySet::public_keys` derives from a
/// secret key set.
pub uninterp spec fn bls_public_keys(secret: blsttc::SecretKeySet) -> Seq<u8>;

/// The share of the secret key that `blsttc::SecretKeySet::secret_key_share` derives for the
/// elder with the given index.
pub uninterp spec fn bls_secret_share(secret: blsttc::SecretKeySet, index: u64) -> blsttc::SecretKeyShare;

/// Whether a share of a secret key is the zero share, the one that
/// `blsttc::SecretKeyShare::default` makes. Nothing can be signed with it.
pub uninterp spec fn bls_share_zero(key: blsttc::SecretKeyShare) -> bool;

/// The share of a signature that `blsttc::SecretKeyShare::sign` makes of a message with a
/// share of a secret key.
pub uninterp spec fn bls_share_signed(key: blsttc::SecretKeyShare, msg: Seq<u8>) -> Seq<u8>;

/// A share is valid for a message when the key set yields a key share for its index and the
/// share verifies under it.
pub open spec fn share_valid(key_set: Seq<u8>, index: u64, share: Seq<u8>, msg: Seq<u8>) -> bool {
    match bls_key_share(key_set, index) {
        Some(k) => bls_share_verifies(k, share, msg),
        None => false,
    }
}

/// The shares of a list as plain values.
pub open spec fn shares_view(shares: Seq<(u64, SignatureShare)>) -> Seq<(u64, Seq<u8>)> {
    shares.map_values(|s: (u64, SignatureShare)| (s.0, s.1.bytes@))
}

/// Each share of the list is valid for the message under the key share of its elder.
pub open spec fn shares_valid(key_set: Seq<u8>, shares: Seq<(u64, SignatureShare)>, msg: Seq<u8>) -> bool {
    forall|i: int|
        0 <= i < shares.len() ==> share_valid(
            key_set,
            (#[trigger] shares[i]).0,
            shares[i].1.bytes@,
            msg,
        )
}

/// No two shares of the list carry one index.
pub open spec fn distinct_indices(shares: Seq<(u64, SignatureShare)>) -> bool {
    forall|i: int, j: int|
        0 <= i < j < shares.len() ==> (#[trigger] shares[i]).0 != (#[trigger] shares[j]).0
}

/// Calls `blsttc::SecretKeySet::public_keys` and hands out the bytes of the key set. They are
/// given their name; nothing more is claimed of them.
#[verifier::external_body]
pub(crate) fn public_keys_of(secret: &blsttc::SecretKeySet) -> (bytes: Vec<u8>)
    ensures
        bytes@ == bls_public_keys(*secret),
{
    secret.public_keys().to_bytes()
}

/// Calls `blsttc::SecretKeySet::secret_key_share`. The share is given its name; nothing more
/// is claimed of it.
#[verifier::external_body]
pub(crate) fn secret_key_share_of(secret: &blsttc::SecretKeySet, index: u64) -> (share:
    blsttc::SecretKeyShare)
    ensures
        share == bls_secret_share(*secret, index),
{
    secret.secret_key_share(index)
}

/// Compares a share of a secret key with the one that `blsttc::SecretKeyShare::default`
/// makes, which is the zero share.
#[verifier::external_body]
pub(crate) fn share_is_zero(key: &blsttc::SecretKeyShare) -> (zero: bool)
    ensures
        zero == bls_share_zero(*key),
{
    *key == blsttc::SecretKeyShare::default()
}

/// Calls `blsttc::SecretKeyShare::sign`. The share it makes is given its name; nothing more
/// is claimed of it. The zero share is left out: signing with it panics.
#[verifier::external_body]
pub(crate) fn sign_share(key: &blsttc::SecretKeyShare, msg: &[u8]) -> (share: SignatureShare)
    requires
        !bls_share_zero(*key),
    ensures
        share.bytes@ == bls_share_signed(*key, msg@),
{
    SignatureShare { bytes: key.sign(msg).to_bytes() }
}

/// Calls `blsttc::PublicKey::verify`, after `PublicKey::from_bytes` and
/// `Signature::from_bytes`. The answer is given its name; nothing more is claimed of it.
#[verifier::external_body]
pub(crate) fn verify_signature(key: &PublicKey, sig: &Signature, msg: &[u8]) -> (ok: bool)
    ensures
        ok == bls_verifies(key.bytes@, sig.bytes@, msg@),
{
    match (blsttc::PublicKey::from_bytes(key.bytes), blsttc::Signature::from_bytes(sig.bytes)) {
        (Ok(k), Ok(s)) => k.verify(&s, msg),
        _ => false,
    }
}

/// Calls `blsttc::PublicKeyShare::verify`, after `PublicKeyShare::from_bytes` and
/// `SignatureShare::from_bytes`. The answer is given its name; nothing more is claimed of it.
#[verifier::external_body]
pub(crate) fn verify_share(share_key: &PublicKey, share: &SignatureShare, msg: &[u8]) -> (ok: bool)
    ensures
        ok == bls_share_verifies(share_key.bytes@, share.bytes@, msg@),
{
    match (
        blsttc::PublicKeyShare::from_bytes(share_key.bytes),
        blsttc::SignatureShare::from_bytes(share.bytes),
    ) {
        (Ok(k), Ok(s)) => k.verify(&s, msg),
        _ => false,
    }
}

/// Calls `blsttc::PublicKeySet::public_key_share`, after `PublicKeySet::from_bytes`. The key
/// share is given its name; nothing more is claimed of it.
#[verifier::external_body]
pub(crate) fn key_share(key_set: &PublicKeySet, index: u64) -> (r: Option<PublicKey>)
    ensures
        match r {
            Some(k) => bls_key_share(key_set@, index) == Some(k.bytes@),
            None => bls_key_share(key_set@, index) is None,
        },
{
    match blsttc::PublicKeySet::from_bytes(key_set.bytes.clone()) {
        Ok(set) => Some(PublicKey { bytes: set.public_key_share(index).to_bytes() }),
        Err(_) => None,
    }
}

/// Calls `blsttc::PublicKeySet::combine_signatures`, after reading the key set and the shares
/// from their bytes. The result is given its name. Of it the contract says what the source
/// shows: too few shares give an error; and shares that are more than the threshold, each
/// valid for one message under its elder's key share, so that the key set and every share
/// can be read, are combined. Whether what they combine into verifies is not claimed. An
/// empty key set is left out, because the threshold of such a set underflows.
#[verifier::external_body]
pub(crate) fn combine_shares(key_set: &PublicKeySet, shares: &Vec<(u64, SignatureShare)>) -> (r:
    Option<Signature>)
    requires
        key_set@.len() >= 48,
    ensures
        match r {
            Some(s) => bls_combined(key_set@, shares_view(shares@)) == Some(s.bytes@),
            None => bls_combined(key_set@, shares_view(shares@)) is None,
        },
        shares@.len() <= spec_threshold(key_set@) ==> r is None,
        shares@.len() > spec_threshold(key_set@) && (exists|msg: Seq<u8>| #[trigger]
            shares_valid(key_set@, shares@, msg)) ==> r is Some,
{
    let set = blsttc::PublicKeySet::from_bytes(key_set.bytes.clone()).ok()?;
    let mut parsed: Vec<(u64, blsttc::SignatureShare)> = Vec::new();
    for (index, share) in shares.iter() {
        parsed.push((*index, blsttc::SignatureShare::from_bytes(share.bytes).ok()?));
    }
    let sig = set.combine_signatures(parsed.iter().map(|(i, s)| (*i, s))).ok()?;
    Some(Signature { bytes: sig.to_bytes() })
}

} // verus!
