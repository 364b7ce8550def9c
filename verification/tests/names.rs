use section_core::name::{Name, Prefix};
use section_core::name_map::NameMap;
use section_core::sap::{Addr, Ip, Peer, SectionAuthorityProvider};
use section_core::bls::PublicKeySet;

fn n_name(bytes_at: &[(usize, u8)]) -> Name {
    let mut bytes = [0u8; 32];
    for (i, b) in bytes_at {
        bytes[*i] = *b;
    }
    Name { bytes }
}

fn sample_names() -> Vec<Name> {
    let mut names = vec![Name { bytes: [0u8; 32] }, Name { bytes: [0xff; 32] }];
    let mut seed: u32 = 12345;
    for _ in 0..40 {
        let mut bytes = [0u8; 32];
        for b in bytes.iter_mut() {
            seed = seed.wrapping_mul(1664525).wrapping_add(1013904223);
            *b = (seed >> 24) as u8;
        }
        names.push(Name { bytes });
    }
    names
}

#[test]
fn bits_are_counted_from_the_most_significant() {
    let name = n_name(&[(0, 0b1000_0001), (31, 0b0000_0001)]);
    assert!(name.bit(0));
    assert!(!name.bit(1));
    assert!(name.bit(7));
    assert!(!name.bit(8));
    assert!(name.bit(255));
    assert_eq!(name.age(), 1);
    assert_eq!(name.with_bit(1, true).bytes[0], 0b1100_0001);
    assert_eq!(name.with_bit(0, false).bytes[0], 0b0000_0001);
    assert_eq!(name.with_bit(255, false).bytes[31], 0);
    assert_eq!(Name::zero(), Name { bytes: [0u8; 32] });
}

#[test]
fn names_and_prefixes_agree_with_xor_name() {
    let names = sample_names();
    for a in names.iter() {
        let xa = xor_name::XorName(a.bytes);
        for i in 0..=255u8 {
            assert_eq!(a.bit(i), xa.bit(i));
            assert_eq!(a.with_bit(i, true).bytes, xa.with_bit(i, true).0);
            assert_eq!(a.with_bit(i, false).bytes, xa.with_bit(i, false).0);
        }
        for b in names.iter() {
            let xb = xor_name::XorName(b.bytes);
            assert_eq!(a.lt(b), xa < xb);
            assert_eq!(a.same(b), xa == xb);
            for len in [0usize, 1, 2, 7, 8, 9, 63, 64, 200, 248] {
                let p = Prefix::new(len, *a);
                let xp = xor_name::Prefix::new(len, xa);
                assert_eq!(p.bit_count(), xp.bit_count());
                assert_eq!(p.name().bytes, xp.name().0);
                assert_eq!(p.matches(b), xp.matches(&xb));
                assert_eq!(p.common_prefix(b), xp.common_prefix(&xb));
                assert_eq!(p.pushed(true).name().bytes, xp.pushed(true).name().0);
                assert_eq!(p.pushed(false).bit_count(), xp.pushed(false).bit_count());
                assert_eq!(p.popped().name().bytes, xp.popped().name().0);
                assert_eq!(p.popped().bit_count(), xp.popped().bit_count());
                assert_eq!(p.sibling().name().bytes, xp.sibling().name().0);
                assert_eq!(p.is_empty(), xp.is_empty());
                let q = Prefix::new(len / 2 + 1, *b);
                let xq = xor_name::Prefix::new(len / 2 + 1, xb);
                assert_eq!(p.is_compatible(&q), xp.is_compatible(&xq));
                assert_eq!(p.is_extension_of(&q), xp.is_extension_of(&xq));
                assert_eq!(q.is_extension_of(&p), xq.is_extension_of(&xp));
                assert_eq!(p.same(&q), xp == xq);
            }
        }
    }
}

#[test]
fn a_prefix_holds_at_most_all_bits_of_a_name() {
    let name = Name { bytes: [0xff; 32] };
    let full = Prefix::new(300, name);
    assert_eq!(full.bit_count(), 256);
    assert_eq!(full.pushed(false), full);
    assert!(full.matches(&name));
    assert!(!full.matches(&name.with_bit(255, false)));
    assert_eq!(full.sibling().name(), name.with_bit(255, false));
    assert_eq!(Prefix::empty().popped(), Prefix::empty());
    assert_eq!(Prefix::empty().sibling(), Prefix::empty());
    assert!(Prefix::empty().matches(&name));
    assert_eq!(Name::zero().common_prefix(&name), 0);
    assert_eq!(name.common_prefix(&name), 256);
}

#[test]
fn a_name_map_keeps_its_names_in_order() {
    let mut map: NameMap<u32> = NameMap::new();
    let a = n_name(&[(0, 1)]);
    let b = n_name(&[(0, 2)]);
    let c = n_name(&[(0, 2), (31, 1)]);
    assert_eq!(map.insert(c, 30), None);
    assert_eq!(map.insert(a, 10), None);
    assert_eq!(map.insert(b, 20), None);
    assert_eq!(map.insert(b, 21), Some(20));
    assert_eq!(map.len(), 3);
    assert_eq!(map.values(), vec![10, 21, 30]);
    assert_eq!(map.entry(0), (a, 10));
    assert_eq!(map.get(&b), Some(21));
    assert!(map.contains(&c));
    let kept = map.keep(&vec![true, false, true]);
    assert_eq!(kept.values(), vec![10, 30]);
    assert_eq!(map.remove(&a), Some(10));
    assert_eq!(map.remove(&a), None);
    assert_eq!(map.get(&a), None);
    assert_eq!(map.duplicate().values(), vec![21, 30]);
}

#[test]
fn elders_stand_in_the_order_of_their_names_and_each_name_once() {
    let addr = |port: u16| Addr { ip: Ip::V4([127, 0, 0, 1]), port };
    let sk_set = blsttc::SecretKeySet::random(1, &mut rand::thread_rng());
    let key_set = PublicKeySet::from_bytes(sk_set.public_keys().to_bytes()).expect("a key set");
    let a = n_name(&[(0, 1)]);
    let b = n_name(&[(0, 2)]);
    let sap = SectionAuthorityProvider::new(
        vec![Peer::new(b, addr(1)), Peer::new(a, addr(2)), Peer::new(b, addr(3))],
        Prefix::empty(),
        key_set,
    );
    assert_eq!(sap.elders_vec(), vec![Peer::new(a, addr(2)), Peer::new(b, addr(3))]);
    assert_eq!(sap.elder_count(), 2);
    assert_eq!(sap.get_elder(&b), Some(Peer::new(b, addr(3))));
    assert_eq!(sap.get_elder(&n_name(&[(0, 3)])), None);
    assert!(sap.contains_elder(&a));
    assert_eq!(sap.section_key().bytes, sk_set.public_keys().public_key().to_bytes());
    assert_eq!(sap.public_key_set().threshold(), 1);
    assert!(PublicKeySet::from_bytes(vec![0u8; 47]).is_none());
    assert!(PublicKeySet::from_bytes(Vec::new()).is_none());
    assert!(PublicKeySet::from_bytes(vec![0u8; 49]).is_none());
}
