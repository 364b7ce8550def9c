use section_core::aggregator::{AggregatorError, SignatureAggregator, DEFAULT_EXPIRATION};
use section_core::bls::{PublicKey, PublicKeySet, Signature, SignatureShare};
use section_core::sap::Signed;
use section_core::signed::SignedShare;

fn a_share(sk_set: &blsttc::SecretKeySet, index: usize, payload: &[u8]) -> SignedShare {
    SignedShare::new(
        PublicKeySet::from_bytes(sk_set.public_keys().to_bytes()).expect("a key set"),
        index,
        &sk_set.secret_key_share(index),
        payload,
    )
    .expect("a share")
}

fn verifies(sk_set: &blsttc::SecretKeySet, sig: &Signature, payload: &[u8]) -> bool {
    let signed = Signed {
        public_key: PublicKey { bytes: sk_set.public_keys().public_key().to_bytes() },
        signature: *sig,
    };
    signed.verify(payload)
}

#[test]
fn verify_signed() {
    let sk = blsttc::SecretKey::random();
    let public_key = sk.public_key();
    let data = "hello".to_string();
    let signature = sk.sign(&data);
    let signed = Signed {
        public_key: PublicKey { bytes: public_key.to_bytes() },
        signature: Signature { bytes: signature.to_bytes() },
    };
    assert!(signed.verify(&data.as_bytes()));
    assert!(!signed.verify("hullo".as_bytes()));
    let other = Signed {
        public_key: PublicKey { bytes: blsttc::SecretKey::random().public_key().to_bytes() },
        signature: signed.signature,
    };
    assert!(!other.verify(&data.as_bytes()));
    let broken = Signed { public_key: PublicKey { bytes: [0xff; 48] }, signature: signed.signature };
    assert!(!broken.verify(&data.as_bytes()));
}

#[test]
fn a_share_verifies_under_the_key_share_of_its_elder() {
    let sk_set = blsttc::SecretKeySet::random(2, &mut rand::thread_rng());
    let share = a_share(&sk_set, 3, b"payload");
    assert_eq!(share.index, 3);
    assert!(share.verify(b"payload"));
    assert!(!share.verify(b"another"));
    let mut moved = share.clone();
    moved.index = 4;
    assert!(!moved.verify(b"payload"));
    let theirs = sk_set.secret_key_share(3usize).sign(b"payload");
    assert_eq!(share.signature_share, SignatureShare { bytes: theirs.to_bytes() });
    assert_eq!(share.public_key_set.threshold(), 2);
    assert_eq!(share.public_key_set.public_key().bytes, sk_set.public_keys().public_key().to_bytes());
}

#[test]
fn shares_over_the_threshold_make_the_signature() {
    let threshold = 3;
    let sk_set = blsttc::SecretKeySet::random(threshold, &mut rand::thread_rng());
    let payload = b"the elders agree";
    let mut aggregator = SignatureAggregator::new();

    for index in 0..threshold {
        let r = aggregator.add(0, payload, a_share(&sk_set, index, payload));
        assert_eq!(r, Err(AggregatorError::NotEnoughShares));
    }
    // a share that is there already does not count
    let r = aggregator.add(0, payload, a_share(&sk_set, 0, payload));
    assert_eq!(r, Err(AggregatorError::NotEnoughShares));
    // a share for something else does not count either, nor one that is not good
    let r = aggregator.add(0, b"something else", a_share(&sk_set, 5, b"something else"));
    assert_eq!(r, Err(AggregatorError::NotEnoughShares));
    let r = aggregator.add(0, payload, a_share(&sk_set, 6, b"something else"));
    assert_eq!(r, Err(AggregatorError::FaultyShare));

    let sig = aggregator.add(0, payload, a_share(&sk_set, threshold, payload)).expect("a signature");
    assert!(verifies(&sk_set, &sig, payload));
    assert_eq!(sig.bytes, sk_set.secret_key().sign(payload).to_bytes());

    // the signature is handed out once
    let r = aggregator.add(0, payload, a_share(&sk_set, threshold + 1, payload));
    assert_eq!(r, Err(AggregatorError::AlreadyAggregated));
}

#[test]
fn shares_expire() {
    let sk_set = blsttc::SecretKeySet::random(1, &mut rand::thread_rng());
    let payload = b"slow elders";
    let mut aggregator = SignatureAggregator::with_expiration(1000);
    assert_eq!(
        aggregator.add(5000, payload, a_share(&sk_set, 0, payload)),
        Err(AggregatorError::NotEnoughShares)
    );
    // the first share is gone when the second comes
    assert_eq!(
        aggregator.add(6000, payload, a_share(&sk_set, 1, payload)),
        Err(AggregatorError::NotEnoughShares)
    );
    // the second is still there for the third
    let sig = aggregator.add(6999, payload, a_share(&sk_set, 2, payload)).expect("a signature");
    assert!(verifies(&sk_set, &sig, payload));
    // once the mark has expired the payload can be signed again
    assert_eq!(
        aggregator.add(7000, payload, a_share(&sk_set, 0, payload)),
        Err(AggregatorError::AlreadyAggregated)
    );
    assert_eq!(
        aggregator.add(8000, payload, a_share(&sk_set, 0, payload)),
        Err(AggregatorError::NotEnoughShares)
    );
    assert_eq!(DEFAULT_EXPIRATION, 15 * 60 * 1000);
}

#[test]
fn shares_of_different_key_sets_are_kept_apart() {
    let ours = blsttc::SecretKeySet::random(1, &mut rand::thread_rng());
    let theirs = blsttc::SecretKeySet::random(1, &mut rand::thread_rng());
    let payload = b"one payload";
    let mut aggregator = SignatureAggregator::new();
    assert!(aggregator.add(0, payload, a_share(&ours, 0, payload)).is_err());
    assert!(aggregator.add(0, payload, a_share(&theirs, 1, payload)).is_err());
    let sig = aggregator.add(0, payload, a_share(&ours, 1, payload)).expect("a signature");
    assert!(verifies(&ours, &sig, payload));
    let sig = aggregator.add(0, payload, a_share(&theirs, 0, payload)).expect("a signature");
    assert!(verifies(&theirs, &sig, payload));
}

#[test]
fn the_zero_key_share_signs_nothing() {
    let sk_set = blsttc::SecretKeySet::random(1, &mut rand::thread_rng());
    let key_set = PublicKeySet::from_bytes(sk_set.public_keys().to_bytes()).expect("a key set");
    let r = SignedShare::new(key_set, 0, &blsttc::SecretKeyShare::default(), b"payload");
    assert!(matches!(r, Err(section_core::error::NodeError::InvalidSignatureShare)));
}

#[test]
fn shares_that_combine_into_no_valid_signature_are_refused() {
    // a secret polynomial without a constant part: its public key is the point at infinity,
    // under which no signature verifies, while every share is good under its own key share
    let poly = blsttc::poly::Poly::random(1, &mut rand::thread_rng());
    let constant = blsttc::poly::Poly::constant(poly.evaluate(0u64));
    let sk_set = blsttc::SecretKeySet::from(poly - constant);
    let payload = b"payload";
    let first = a_share(&sk_set, 0, payload);
    let second = a_share(&sk_set, 1, payload);
    assert!(first.verify(payload));
    assert!(second.verify(payload));
    let mut aggregator = SignatureAggregator::new();
    assert_eq!(aggregator.add(0, payload, first), Err(AggregatorError::NotEnoughShares));
    assert_eq!(aggregator.add(1, payload, second), Err(AggregatorError::FaultyShare));
    // nothing was kept of the share, and nothing was handed out
    assert_eq!(
        aggregator.add(2, payload, a_share(&sk_set, 1, payload)),
        Err(AggregatorError::FaultyShare)
    );
}
