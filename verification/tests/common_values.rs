use section_core::bls::{PublicKey, PublicKeySet, Signature};
use section_core::name::{Name, Prefix};
use section_core::sap::{Addr, Ip, Peer, SectionAuthorityProvider, Signed, SignedSap};
use std::collections::BTreeMap;

fn name_of(first: u8, last: u8) -> Name {
    let mut bytes = [0u8; 32];
    bytes[0] = first;
    bytes[31] = last;
    Name { bytes }
}

fn addr_of(port: u16) -> Addr {
    Addr { ip: Ip::V4([127, 0, 0, 1]), port }
}

#[test]
fn signed_sap_verifies_with_the_bytes_that_bincode_gives() {
    let sk_set = blsttc::SecretKeySet::random(2, &mut rand::thread_rng());
    let pk_set = sk_set.public_keys();
    let key_set = PublicKeySet::from_bytes(pk_set.to_bytes()).expect("a key set");
    let peers = vec![
        Peer::new(name_of(0x80, 5), addr_of(2000)),
        Peer::new(name_of(0x10, 5), addr_of(1000)),
        Peer::new(name_of(0x40, 5), addr_of(3000)),
    ];
    let prefix = Prefix::new(1, name_of(0x80, 0));
    let sap = SectionAuthorityProvider::new(peers.clone(), prefix, key_set);
    let ours = sap.encode();

    // a socket address is written as the family's number, the octets and the port
    let mut elders: BTreeMap<xor_name::XorName, (u32, [u8; 4], u16)> = BTreeMap::new();
    for peer in peers.iter() {
        let _ = elders.insert(xor_name::XorName(peer.name.bytes), (0, [127, 0, 0, 1], peer.addr.port));
    }
    let theirs_prefix = xor_name::Prefix::new(1, xor_name::XorName(name_of(0x80, 0).bytes));
    let theirs = bincode::serialize(&(theirs_prefix, pk_set.clone(), elders)).expect("bytes");
    assert_eq!(ours, theirs);

    let sig = sk_set.secret_key().sign(&ours);
    let signed = SignedSap::new(
        sap,
        Signed {
            public_key: PublicKey { bytes: pk_set.public_key().to_bytes() },
            signature: Signature { bytes: sig.to_bytes() },
        },
    );
    assert!(signed.self_verify());
    assert!(signed.is_authentic());
    assert_eq!(signed.section_key().bytes, pk_set.public_key().to_bytes());
}
