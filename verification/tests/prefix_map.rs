use secured_linked_list::SecuredLinkedList;
use section_core::bls::{PublicKey, PublicKeySet, Signature};
use section_core::error::NodeError;
use section_core::name::{Name, Prefix};
use section_core::prefix_map::NetworkPrefixMap;
use section_core::sap::{Addr, Ip, Peer, SectionAuthorityProvider, Signed, SignedSap};

struct Sec {
    sk_set: blsttc::SecretKeySet,
    sap: SectionAuthorityProvider,
}

fn p_name(first: u8) -> Name {
    let mut bytes = [0u8; 32];
    bytes[0] = first;
    bytes[31] = 6;
    Name { bytes }
}

fn p_key(pk: blsttc::PublicKey) -> PublicKey {
    PublicKey { bytes: pk.to_bytes() }
}

fn bits(s: &str) -> Prefix {
    let mut prefix = Prefix::empty();
    for c in s.chars() {
        prefix = prefix.pushed(c == '1');
    }
    prefix
}

fn sec(prefix: &str) -> Sec {
    let sk_set = blsttc::SecretKeySet::random(1, &mut rand::thread_rng());
    let elders = (0..3u8)
        .map(|i| Peer::new(p_name(i), Addr { ip: Ip::V4([1, 1, 1, i]), port: 80 }))
        .collect();
    let key_set = PublicKeySet::from_bytes(sk_set.public_keys().to_bytes()).expect("a key set");
    Sec { sap: SectionAuthorityProvider::new(elders, bits(prefix), key_set), sk_set }
}

impl Sec {
    fn key(&self) -> blsttc::PublicKey {
        self.sk_set.public_keys().public_key()
    }

    fn signed(&self) -> SignedSap {
        let sig = self.sk_set.secret_key().sign(self.sap.encode());
        SignedSap::new(
            self.sap.clone(),
            Signed { public_key: p_key(self.key()), signature: Signature { bytes: sig.to_bytes() } },
        )
    }

    fn chain_from(&self, parent: &Sec) -> SecuredLinkedList {
        let mut chain = SecuredLinkedList::new(parent.key());
        let sig = parent.sk_set.secret_key().sign(bincode::serialize(&self.key()).expect("bytes"));
        chain.insert(&parent.key(), self.key(), sig).expect("a link");
        chain
    }
}

#[test]
fn a_new_prefix_is_stored_and_a_known_authority_is_not_stored_again() {
    let genesis = sec("");
    let mut map = NetworkPrefixMap::new(p_key(genesis.key()));
    assert_eq!(map.genesis_key(), p_key(genesis.key()));
    assert_eq!(map.len(), 0);
    assert!(map.get_signed(&bits("")).is_none());

    let chain = SecuredLinkedList::new(genesis.key());
    assert!(matches!(map.update(genesis.signed(), &chain), Ok(true)));
    assert!(matches!(map.update(genesis.signed(), &chain), Ok(false)));
    assert_eq!(map.len(), 1);
    assert!(map.get_signed(&bits("")).expect("an entry").same(&genesis.signed()));
    assert!(map.section(0).is_authentic());
}

#[test]
fn an_authority_is_replaced_by_one_with_a_later_key() {
    let genesis = sec("");
    let next = sec("");
    let unrelated = sec("");
    let mut map = NetworkPrefixMap::new(p_key(genesis.key()));
    assert!(matches!(map.update(genesis.signed(), &SecuredLinkedList::new(genesis.key())), Ok(true)));

    assert!(matches!(map.update(next.signed(), &next.chain_from(&genesis)), Ok(true)));
    assert_eq!(map.len(), 1);
    assert!(map.get_signed(&bits("")).expect("an entry").same(&next.signed()));

    // the earlier authority does not come back
    let r = map.update(genesis.signed(), &SecuredLinkedList::new(genesis.key()));
    assert!(matches!(r, Err(NodeError::UntrustedSectionAuthProvider)));
    // one whose chain starts at a key that is not known is refused
    let r = map.update(unrelated.signed(), &SecuredLinkedList::new(unrelated.key()));
    assert!(matches!(r, Err(NodeError::UntrustedProofChain)));
    assert!(map.get_signed(&bits("")).expect("an entry").same(&next.signed()));
    assert_eq!(map.known_keys(), vec![p_key(genesis.key()), p_key(next.key())]);
}

#[test]
fn what_does_not_verify_is_refused() {
    let genesis = sec("");
    let next = sec("0");
    let mut map = NetworkPrefixMap::new(p_key(genesis.key()));

    // a signature for something else
    let sig = next.sk_set.secret_key().sign(b"something else");
    let forged = SignedSap::new(
        next.sap.clone(),
        Signed { public_key: p_key(next.key()), signature: Signature { bytes: sig.to_bytes() } },
    );
    assert!(matches!(
        map.update(forged, &next.chain_from(&genesis)),
        Err(NodeError::InvalidSignature)
    ));

    // a good signature by a key that is not the authority's own
    let sig = genesis.sk_set.secret_key().sign(next.sap.encode());
    let misnamed = SignedSap::new(
        next.sap.clone(),
        Signed { public_key: p_key(genesis.key()), signature: Signature { bytes: sig.to_bytes() } },
    );
    assert!(matches!(
        map.update(misnamed, &next.chain_from(&genesis)),
        Err(NodeError::UntrustedSectionAuthProvider)
    ));

    // a chain that does not end in the authority's key
    assert!(matches!(
        map.update(next.signed(), &SecuredLinkedList::new(genesis.key())),
        Err(NodeError::UntrustedSectionAuthProvider)
    ));
    assert_eq!(map.len(), 0);

    // trusted keys can be handed in with a chain
    let theirs = sec("1");
    let r = map.verify_with_chain_and_update(
        theirs.signed(),
        &SecuredLinkedList::new(theirs.key()),
        &SecuredLinkedList::new(theirs.key()),
    );
    assert!(matches!(r, Ok(true)));
    let r = map.verify_with_chain_and_update(
        next.signed(),
        &next.chain_from(&genesis),
        &SecuredLinkedList::new(theirs.key()),
    );
    assert!(matches!(r, Err(NodeError::UntrustedProofChain)));
    let r = map.update_trusting(next.signed(), &next.chain_from(&genesis), &vec![p_key(genesis.key())]);
    assert!(matches!(r, Ok(true)));
    assert_eq!(map.len(), 2);
}

fn filled() -> (NetworkPrefixMap, Vec<Sec>) {
    let genesis = sec("");
    let mut map = NetworkPrefixMap::new(p_key(genesis.key()));
    let mut sections = Vec::new();
    for prefix in ["00", "01", "10", "110", "111"] {
        let section = sec(prefix);
        assert!(matches!(map.update(section.signed(), &section.chain_from(&genesis)), Ok(true)));
        sections.push(section);
    }
    (map, sections)
}

#[test]
fn the_section_of_a_name_has_the_longest_matching_prefix() {
    let (mut map, sections) = filled();
    assert!(map.section_by_name(&p_name(0b0100_0000)).expect("a section").same(&sections[1].sap));
    assert!(map.section_by_name(&p_name(0b1110_0000)).expect("a section").same(&sections[4].sap));
    assert!(map.section_by_name(&p_name(0b1000_0000)).expect("a section").same(&sections[2].sap));

    // an authority for a shorter prefix does not hide the longer ones
    let genesis = sec("");
    let wide = sec("1");
    let mut empty = NetworkPrefixMap::new(p_key(genesis.key()));
    assert!(matches!(empty.section_by_name(&p_name(0)), Err(NodeError::NoMatchingSection)));
    assert!(matches!(empty.update(wide.signed(), &wide.chain_from(&genesis)), Ok(true)));
    assert!(matches!(empty.section_by_name(&p_name(0)), Err(NodeError::NoMatchingSection)));
    assert!(empty.section_by_name(&p_name(0x80)).is_ok());
    let _ = map.duplicate();
}

#[test]
fn the_closest_section_shares_the_most_leading_bits() {
    let (map, sections) = filled();
    let name = p_name(0b1101_0000);
    assert!(map.closest_or_opposite(&name, None).expect("an entry").same(&sections[3].signed()));
    // with its own section left aside, the sibling is the closest
    let own = bits("110");
    assert!(map.closest_or_opposite(&name, Some(&own)).expect("an entry").same(&sections[4].signed()));
    // the first of equally close ones is taken
    let name = p_name(0b0000_0000);
    assert!(map.closest_or_opposite(&name, Some(&bits("00"))).expect("an entry").same(&sections[1].signed()));
    let genesis = sec("");
    let empty = NetworkPrefixMap::new(p_key(genesis.key()));
    assert!(empty.closest_or_opposite(&name, None).is_none());
}

#[test]
fn of_equally_close_sections_the_sibling_of_the_excluded_one_is_preferred() {
    let genesis = sec("");
    let mut map = NetworkPrefixMap::new(p_key(genesis.key()));
    let mut sections = Vec::new();
    for prefix in ["10", "01", "00"] {
        let section = sec(prefix);
        assert!(matches!(map.update(section.signed(), &section.chain_from(&genesis)), Ok(true)));
        sections.push(section);
    }
    // all of them share no bit with a name that starts with 11; "10" shares one
    let name = p_name(0b1100_0000);
    assert!(map.closest_or_opposite(&name, None).expect("an entry").same(&sections[0].signed()));
    // with "10" left aside the others tie, and none is the sibling "11": the first is taken
    assert!(map.closest_or_opposite(&name, Some(&bits("10"))).expect("an entry").same(&sections[1].signed()));
    // for a name in "00", with "00" left aside, its sibling "01" is the closest anyway
    let name = p_name(0b0010_0000);
    assert!(map.closest_or_opposite(&name, Some(&bits("00"))).expect("an entry").same(&sections[1].signed()));
}

#[test]
fn a_map_that_is_written_is_read_again() {
    let (map, sections) = filled();
    let bytes = map.encode();
    let back = NetworkPrefixMap::decode(&bytes).expect("a map");
    assert_eq!(back.genesis_key(), map.genesis_key());
    assert_eq!(back.len(), map.len());
    for i in 0..map.len() {
        assert!(back.section(i).same(map.section(i)));
    }
    assert!(back.section(3).same(&sections[3].signed()));
    assert_eq!(back.encode(), bytes);

    // the bytes begin with the genesis key and the number of entries
    assert_eq!(&bytes[..48], &map.genesis_key().bytes[..]);
    assert_eq!(&bytes[48..56], &5u64.to_le_bytes()[..]);
    // an entry is the authority as it is signed, the key and the signature
    let first = map.section(0);
    let authority = first.value.encode();
    assert_eq!(&bytes[56..56 + authority.len()], &authority[..]);
    assert_eq!(&bytes[56 + authority.len()..56 + authority.len() + 48], &first.sig.public_key.bytes[..]);

    let genesis = sec("");
    let empty = NetworkPrefixMap::new(p_key(genesis.key()));
    let bytes = empty.encode();
    assert_eq!(bytes.len(), 56);
    assert_eq!(NetworkPrefixMap::decode(&bytes).expect("a map").len(), 0);
}

#[test]
fn a_map_that_was_tampered_with_is_not_read() {
    let (map, _) = filled();
    let bytes = map.encode();
    // the port of an elder: the authority no longer is what was signed
    let authority_len = map.section(0).value.encode().len();
    let mut tampered = bytes.clone();
    tampered[56 + authority_len - 1] ^= 1;
    assert!(matches!(
        NetworkPrefixMap::decode(&tampered),
        Err(NodeError::UntrustedSectionAuthProvider)
    ));
    // the signature itself
    let mut tampered = bytes.clone();
    let last = tampered.len() - 1;
    tampered[last] ^= 1;
    assert!(matches!(
        NetworkPrefixMap::decode(&tampered),
        Err(NodeError::UntrustedSectionAuthProvider)
    ));
    // bytes missing, or too many
    assert!(matches!(NetworkPrefixMap::decode(&bytes[..bytes.len() - 1]), Err(NodeError::InvalidPayload)));
    assert!(matches!(NetworkPrefixMap::decode(&bytes[..40]), Err(NodeError::InvalidPayload)));
    assert!(matches!(NetworkPrefixMap::decode(&[]), Err(NodeError::InvalidPayload)));
    let mut longer = bytes.clone();
    longer.push(0);
    assert!(matches!(NetworkPrefixMap::decode(&longer), Err(NodeError::InvalidPayload)));
    // more entries announced than there are
    let mut more = bytes.clone();
    more[48] = 6;
    assert!(matches!(NetworkPrefixMap::decode(&more), Err(NodeError::InvalidPayload)));
    // a prefix that goes on after its length
    let mut loose = bytes.clone();
    loose[56 + 2 + 31] = 1;
    assert!(matches!(NetworkPrefixMap::decode(&loose), Err(NodeError::InvalidPayload)));
    // the same entry twice
    let genesis = sec("");
    let one = sec("0");
    let mut single = NetworkPrefixMap::new(p_key(genesis.key()));
    assert!(matches!(single.update(one.signed(), &one.chain_from(&genesis)), Ok(true)));
    let bytes = single.encode();
    let mut twice = bytes.clone();
    twice[48] = 2;
    twice.extend_from_slice(&bytes[56..]);
    assert!(matches!(
        NetworkPrefixMap::decode(&twice),
        Err(NodeError::UntrustedSectionAuthProvider)
    ));
    assert!(NetworkPrefixMap::from_entries(p_key(genesis.key()), vec![one.signed(), one.signed()]).is_none());
    assert!(NetworkPrefixMap::from_entries(p_key(genesis.key()), vec![one.signed()]).is_some());
}
