//! Reading back what was written: the bytes of numbers, names, addresses and peers.
//!
//! Each kind of value has its bytes (see the functions that write them) and a reader, which
//! says what value stands at a place in the bytes and where it ends. What a reader finds
//! was written as exactly those bytes, and what was written is found again.

use vstd::prelude::*;
use vstd::bytes::*;
use vstd::slice::slice_subrange;
use crate::bls::{spec_key_set_bytes, PublicKey, PublicKeySet, Signature};
use crate::name::{Name, Prefix};
use crate::sap::{
    peers_sorted, spec_encode_addr, spec_encode_peer, spec_encode_peers, Addr, Ip, Peer, SapView,
    SectionAuthorityProvider, Signed, SignedSap, SignedSapView,
};

verus! {

/// The `n` bytes at a place, and the place after them.
pub open spec fn spec_take(bytes: Seq<u8>, pos: int, n: int) -> Option<(Seq<u8>, int)> {
    if 0 <= pos && 0 <= n && pos + n <= bytes.len() {
        Some((bytes.subrange(pos, pos + n), pos + n))
    } else {
        None
    }
}

/// The array with the given bytes.
pub open spec fn spec_array<const N: usize>(s: Seq<u8>) -> [u8; N] {
    choose|a: [u8; N]| a@ == s
}

/// An array is the array of its bytes.
pub proof fn lemma_array_of<const N: usize>(a: [u8; N])
    ensures
        spec_array::<N>(a@) == a,
{
    let b = spec_array::<N>(a@);
    assert(b@ == a@);
    assert(b =~= a);
}

/// A number of two bytes, the low byte first.
pub open spec fn parse_u16(bytes: Seq<u8>, pos: int) -> Option<(u16, int)> {
    match spec_take(bytes, pos, 2) {
        Some((s, q)) => Some((spec_u16_from_le_bytes(s), q)),
        None => None,
    }
}

/// A number of four bytes, the low byte first.
pub open spec fn parse_u32(bytes: Seq<u8>, pos: int) -> Option<(u32, int)> {
    match spec_take(bytes, pos, 4) {
        Some((s, q)) => Some((spec_u32_from_le_bytes(s), q)),
        None => None,
    }
}

/// A number of eight bytes, the low byte first.
pub open spec fn parse_u64(bytes: Seq<u8>, pos: int) -> Option<(u64, int)> {
    match spec_take(bytes, pos, 8) {
        Some((s, q)) => Some((spec_u64_from_le_bytes(s), q)),
        None => None,
    }
}

/// The array that the `N` bytes at a place make up.
pub open spec fn parse_array<const N: usize>(bytes: Seq<u8>, pos: int) -> Option<([u8; N], int)> {
    match spec_take(bytes, pos, N as int) {
        Some((s, q)) => if exists|a: [u8; N]| a@ == s {
            Some((spec_array::<N>(s), q))
        } else {
            None
        },
        None => None,
    }
}

/// What is read as an array was written as the bytes that were read.
pub proof fn lemma_array_read<const N: usize>(bytes: Seq<u8>, pos: int)
    ensures
        parse_array::<N>(bytes, pos) matches Some((a, q)) ==> 0 <= pos && q == pos + N && q
            <= bytes.len() && bytes.subrange(pos, q) == a@,
{
}

/// An array that was written is read again.
pub proof fn lemma_array_written<const N: usize>(bytes: Seq<u8>, pos: int, a: [u8; N])
    requires
        0 <= pos,
        pos + N <= bytes.len(),
        bytes.subrange(pos, pos + N) == a@,
    ensures
        parse_array::<N>(bytes, pos) == Some((a, pos + N)),
{
    lemma_array_of(a);
}

/// A name: its 32 bytes.
pub open spec fn parse_name(bytes: Seq<u8>, pos: int) -> Option<(Name, int)> {
    match parse_array::<32>(bytes, pos) {
        Some((a, q)) => Some((Name { bytes: a }, q)),
        None => None,
    }
}

/// An address: the family as four bytes, the octets of that family, the port.
pub open spec fn parse_addr(bytes: Seq<u8>, pos: int) -> Option<(Addr, int)> {
    match parse_u32(bytes, pos) {
        Some((family, q)) => {
            let ip = if family == 0 {
                match parse_array::<4>(bytes, q) {
                    Some((octets, r)) => Some((Ip::V4(octets), r)),
                    None => None,
                }
            } else if family == 1 {
                match parse_array::<16>(bytes, q) {
                    Some((octets, r)) => Some((Ip::V6(octets), r)),
                    None => None,
                }
            } else {
                None
            };
            match ip {
                Some((ip, r)) => match parse_u16(bytes, r) {
                    Some((port, t)) => Some((Addr { ip, port }, t)),
                    None => None,
                },
                None => None,
            }
        },
        None => None,
    }
}

/// A peer: the name, then the address.
pub open spec fn parse_peer(bytes: Seq<u8>, pos: int) -> Option<(Peer, int)> {
    match parse_name(bytes, pos) {
        Some((name, q)) => match parse_addr(bytes, q) {
            Some((addr, r)) => Some((Peer { name, addr }, r)),
            None => None,
        },
        None => None,
    }
}

/// `count` peers, one after the other.
pub open spec fn parse_peers(bytes: Seq<u8>, pos: int, count: nat) -> Option<(Seq<Peer>, int)>
    decreases count,
{
    if count == 0 {
        if 0 <= pos <= bytes.len() {
            Some((Seq::empty(), pos))
        } else {
            None
        }
    } else {
        match parse_peers(bytes, pos, (count - 1) as nat) {
            Some((head, q)) => match parse_peer(bytes, q) {
                Some((peer, r)) => Some((head.push(peer), r)),
                None => None,
            },
            None => None,
        }
    }
}

/// A part of a part of the bytes is a part of the bytes.
pub proof fn lemma_split(bytes: Seq<u8>, pos: int, a: Seq<u8>, b: Seq<u8>)
    requires
        0 <= pos,
        pos + a.len() + b.len() <= bytes.len(),
        bytes.subrange(pos, pos + a.len() + b.len()) == a + b,
    ensures
        bytes.subrange(pos, pos + a.len()) == a,
        bytes.subrange(pos + a.len(), pos + a.len() + b.len()) == b,
{
    let whole = bytes.subrange(pos, pos + a.len() + b.len());
    assert(bytes.subrange(pos, pos + a.len()) =~= whole.subrange(0, a.len() as int));
    assert(whole.subrange(0, a.len() as int) =~= a);
    assert(bytes.subrange(pos + a.len(), pos + a.len() + b.len()) =~= whole.subrange(
        a.len() as int,
        (a.len() + b.len()) as int,
    ));
    assert(whole.subrange(a.len() as int, (a.len() + b.len()) as int) =~= b);
}

/// Two parts of the bytes that follow each other make one part.
pub proof fn lemma_join(bytes: Seq<u8>, pos: int, mid: int, end: int)
    requires
        0 <= pos <= mid <= end <= bytes.len(),
    ensures
        bytes.subrange(pos, end) == bytes.subrange(pos, mid) + bytes.subrange(mid, end),
{
    assert(bytes.subrange(pos, end) =~= bytes.subrange(pos, mid) + bytes.subrange(mid, end));
}

/// The bytes of an address are 10 or 22.
pub proof fn lemma_addr_len(addr: Addr)
    ensures
        spec_encode_addr(addr).len() == (match addr.ip {
            Ip::V4(_) => 10nat,
            Ip::V6(_) => 22nat,
        }),
{
    lemma_auto_spec_u32_to_from_le_bytes();
    lemma_auto_spec_u16_to_from_le_bytes();
}

/// What is read as an address was written as the bytes that were read.
pub proof fn lemma_addr_read(bytes: Seq<u8>, pos: int)
    ensures
        parse_addr(bytes, pos) matches Some((addr, q)) ==> 0 <= pos <= q <= bytes.len()
            && bytes.subrange(pos, q) == spec_encode_addr(addr),
{
    lemma_auto_spec_u32_to_from_le_bytes();
    lemma_auto_spec_u16_to_from_le_bytes();
    if let Some((addr, q)) = parse_addr(bytes, pos) {
        let family = bytes.subrange(pos, pos + 4);
        assert(spec_u32_to_le_bytes(spec_u32_from_le_bytes(family)) == family);
        match addr.ip {
            Ip::V4(octets) => {
                lemma_array_read::<4>(bytes, pos + 4);
                lemma_join(bytes, pos, pos + 4, pos + 8);
                lemma_join(bytes, pos, pos + 8, pos + 10);
            },
            Ip::V6(octets) => {
                lemma_array_read::<16>(bytes, pos + 4);
                lemma_join(bytes, pos, pos + 4, pos + 20);
                lemma_join(bytes, pos, pos + 20, pos + 22);
            },
        }
    }
}

/// An address that was written is read again.
pub proof fn lemma_addr_written(bytes: Seq<u8>, pos: int, addr: Addr)
    requires
        0 <= pos,
        pos + spec_encode_addr(addr).len() <= bytes.len(),
        bytes.subrange(pos, pos + spec_encode_addr(addr).len()) == spec_encode_addr(addr),
    ensures
        parse_addr(bytes, pos) == Some((addr, pos + spec_encode_addr(addr).len())),
{
    lemma_auto_spec_u32_to_from_le_bytes();
    lemma_auto_spec_u16_to_from_le_bytes();
    lemma_addr_len(addr);
    match addr.ip {
        Ip::V4(octets) => {
            let head = spec_u32_to_le_bytes(0) + octets@;
            lemma_split(bytes, pos, head, spec_u16_to_le_bytes(addr.port));
            lemma_split(bytes, pos, spec_u32_to_le_bytes(0), octets@);
            lemma_array_written::<4>(bytes, pos + 4, octets);
        },
        Ip::V6(octets) => {
            let head = spec_u32_to_le_bytes(1) + octets@;
            lemma_split(bytes, pos, head, spec_u16_to_le_bytes(addr.port));
            lemma_split(bytes, pos, spec_u32_to_le_bytes(1), octets@);
            lemma_array_written::<16>(bytes, pos + 4, octets);
        },
    }
}

/// What is read as a peer was written as the bytes that were read.
pub proof fn lemma_peer_read(bytes: Seq<u8>, pos: int)
    ensures
        parse_peer(bytes, pos) matches Some((peer, q)) ==> 0 <= pos <= q <= bytes.len()
            && bytes.subrange(pos, q) == spec_encode_peer(peer),
{
    if let Some((peer, q)) = parse_peer(bytes, pos) {
        lemma_array_read::<32>(bytes, pos);
        lemma_addr_read(bytes, pos + 32);
        lemma_join(bytes, pos, pos + 32, q);
    }
}

/// A peer that was written is read again.
pub proof fn lemma_peer_written(bytes: Seq<u8>, pos: int, peer: Peer)
    requires
        0 <= pos,
        pos + spec_encode_peer(peer).len() <= bytes.len(),
        bytes.subrange(pos, pos + spec_encode_peer(peer).len()) == spec_encode_peer(peer),
    ensures
        parse_peer(bytes, pos) == Some((peer, pos + spec_encode_peer(peer).len())),
{
    lemma_split(bytes, pos, peer.name.bytes@, spec_encode_addr(peer.addr));
    lemma_array_written::<32>(bytes, pos, peer.name.bytes);
    lemma_addr_written(bytes, pos + 32, peer.addr);
}

/// What is read as peers was written as the bytes that were read, and there are as many
/// peers as were asked for.
pub proof fn lemma_peers_read(bytes: Seq<u8>, pos: int, count: nat)
    ensures
        parse_peers(bytes, pos, count) matches Some((peers, q)) ==> 0 <= pos <= q <= bytes.len()
            && peers.len() == count && bytes.subrange(pos, q) == spec_encode_peers(peers),
    decreases count,
{
    if let Some((peers, q)) = parse_peers(bytes, pos, count) {
        if count == 0 {
            assert(bytes.subrange(pos, pos) =~= Seq::<u8>::empty());
        } else {
            lemma_peers_read(bytes, pos, (count - 1) as nat);
            let (head, mid) = parse_peers(bytes, pos, (count - 1) as nat)->0;
            lemma_peer_read(bytes, mid);
            lemma_join(bytes, pos, mid, q);
            assert(peers.drop_last() =~= head);
        }
    }
}

/// Peers that were written are read again.
pub proof fn lemma_peers_written(bytes: Seq<u8>, pos: int, peers: Seq<Peer>)
    requires
        0 <= pos,
        pos + spec_encode_peers(peers).len() <= bytes.len(),
        bytes.subrange(pos, pos + spec_encode_peers(peers).len()) == spec_encode_peers(peers),
    ensures
        parse_peers(bytes, pos, peers.len()) == Some(
            (peers, pos + spec_encode_peers(peers).len()),
        ),
    decreases peers.len(),
{
    if peers.len() > 0 {
        let head = spec_encode_peers(peers.drop_last());
        let last = spec_encode_peer(peers.last());
        lemma_split(bytes, pos, head, last);
        lemma_peers_written(bytes, pos, peers.drop_last());
        lemma_peer_written(bytes, pos + head.len(), peers.last());
        assert(peers.drop_last().push(peers.last()) =~= peers);
    }
}

/// Where fewer peers cannot be read, more cannot either.
pub proof fn lemma_peers_none(bytes: Seq<u8>, pos: int, fewer: nat, count: nat)
    requires
        fewer <= count,
        parse_peers(bytes, pos, fewer) is None,
    ensures
        parse_peers(bytes, pos, count) is None,
    decreases count,
{
    if fewer < count {
        lemma_peers_none(bytes, pos, fewer, (count - 1) as nat);
    }
}

/// A prefix: its length as two bytes, then its name.
pub open spec fn parse_prefix(bytes: Seq<u8>, pos: int) -> Option<(Prefix, int)> {
    match parse_u16(bytes, pos) {
        Some((bit_count, q)) => match parse_name(bytes, q) {
            Some((name, r)) => match Prefix::spec_from_parts(bit_count, name) {
                Some(prefix) => Some((prefix, r)),
                None => None,
            },
            None => None,
        },
        None => None,
    }
}

/// A key set: the number of its coefficients as eight bytes, at least one, then the
/// coefficients, 48 bytes each.
pub open spec fn parse_key_set(bytes: Seq<u8>, pos: int) -> Option<(Seq<u8>, int)> {
    match parse_u64(bytes, pos) {
        Some((count, q)) => if count >= 1 {
            spec_take(bytes, q, 48 * count)
        } else {
            None
        },
        None => None,
    }
}

/// A section authority provider: the prefix, the key set, the number of elders as eight
/// bytes, then the elders, who must stand in the strict order of their names.
pub open spec fn parse_sap(bytes: Seq<u8>, pos: int) -> Option<(SapView, int)> {
    match parse_prefix(bytes, pos) {
        Some((prefix, q)) => match parse_key_set(bytes, q) {
            Some((key_set, r)) => match parse_u64(bytes, r) {
                Some((count, t)) => match parse_peers(bytes, t, count as nat) {
                    Some((elders, u)) => if peers_sorted(elders) {
                        Some((SapView { prefix, key_set, elders }, u))
                    } else {
                        None
                    },
                    None => None,
                },
                None => None,
            },
            None => None,
        },
        None => None,
    }
}

/// A signed section authority provider as bytes: the provider, the key, the signature.
pub open spec fn spec_encode_entry(entry: SignedSapView) -> Seq<u8> {
    entry.value.encode() + entry.sig.public_key.bytes@ + entry.sig.signature.bytes@
}

/// Signed section authority providers as bytes, one after the other.
pub open spec fn spec_encode_entries(entries: Seq<SignedSapView>) -> Seq<u8>
    decreases entries.len(),
{
    if entries.len() == 0 {
        Seq::empty()
    } else {
        spec_encode_entries(entries.drop_last()) + spec_encode_entry(entries.last())
    }
}

/// A prefix map as bytes: the genesis key, the number of entries as eight bytes, the
/// entries.
pub open spec fn spec_encode_map(genesis_key: PublicKey, entries: Seq<SignedSapView>) -> Seq<u8> {
    genesis_key.bytes@ + spec_u64_to_le_bytes(entries.len() as u64) + spec_encode_entries(entries)
}

/// A signed section authority provider: the provider, the key, the signature.
pub open spec fn parse_entry(bytes: Seq<u8>, pos: int) -> Option<(SignedSapView, int)> {
    match parse_sap(bytes, pos) {
        Some((value, q)) => match parse_array::<48>(bytes, q) {
            Some((key, r)) => match parse_array::<96>(bytes, r) {
                Some((signature, t)) => Some(
                    (
                        SignedSapView {
                            value,
                            sig: Signed {
                                public_key: PublicKey { bytes: key },
                                signature: Signature { bytes: signature },
                            },
                        },
                        t,
                    ),
                ),
                None => None,
            },
            None => None,
        },
        None => None,
    }
}

/// `count` signed section authority providers, one after the other.
pub open spec fn parse_entries(bytes: Seq<u8>, pos: int, count: nat) -> Option<
    (Seq<SignedSapView>, int),
>
    decreases count,
{
    if count == 0 {
        if 0 <= pos <= bytes.len() {
            Some((Seq::empty(), pos))
        } else {
            None
        }
    } else {
        match parse_entries(bytes, pos, (count - 1) as nat) {
            Some((head, q)) => match parse_entry(bytes, q) {
                Some((entry, r)) => Some((head.push(entry), r)),
                None => None,
            },
            None => None,
        }
    }
}

/// A prefix map: the genesis key, the number of entries, the entries, and nothing after
/// them.
pub open spec fn parse_map(bytes: Seq<u8>) -> Option<(PublicKey, Seq<SignedSapView>)> {
    match parse_array::<48>(bytes, 0) {
        Some((key, q)) => match parse_u64(bytes, q) {
            Some((count, r)) => match parse_entries(bytes, r, count as nat) {
                Some((entries, t)) => if t == bytes.len() {
                    Some((PublicKey { bytes: key }, entries))
                } else {
                    None
                },
                None => None,
            },
            None => None,
        },
        None => None,
    }
}

/// What is read as a section authority provider was written as the bytes that were read,
/// and is well formed but for the count of its parts.
pub proof fn lemma_sap_read(bytes: Seq<u8>, pos: int)
    ensures
        parse_sap(bytes, pos) matches Some((sap, q)) ==> {
            &&& 0 <= pos <= q <= bytes.len()
            &&& bytes.subrange(pos, q) == sap.encode()
            &&& sap.prefix.wf()
            &&& spec_key_set_bytes(sap.key_set)
            &&& peers_sorted(sap.elders)
        },
{
    lemma_auto_spec_u16_to_from_le_bytes();
    lemma_auto_spec_u64_to_from_le_bytes();
    if let Some((sap, end)) = parse_sap(bytes, pos) {
        let (bit_count, q) = parse_u16(bytes, pos)->0;
        let (name, r) = parse_name(bytes, q)->0;
        lemma_array_read::<32>(bytes, q);
        Prefix::lemma_parts(bit_count, name);
        let (coeffs, t) = parse_u64(bytes, r)->0;
        let (key_set, u) = spec_take(bytes, t, 48 * coeffs)->0;
        let (count, v) = parse_u64(bytes, u)->0;
        lemma_peers_read(bytes, v, count as nat);
        lemma_join(bytes, pos, q, r);
        lemma_join(bytes, pos, r, t);
        lemma_join(bytes, pos, t, u);
        lemma_join(bytes, pos, u, v);
        lemma_join(bytes, pos, v, end);
        assert(spec_u16_to_le_bytes(spec_u16_from_le_bytes(bytes.subrange(pos, q)))
            == bytes.subrange(pos, q));
        assert(spec_u64_to_le_bytes(spec_u64_from_le_bytes(bytes.subrange(r, t)))
            == bytes.subrange(r, t));
        assert(spec_u64_to_le_bytes(spec_u64_from_le_bytes(bytes.subrange(u, v)))
            == bytes.subrange(u, v));
        assert(key_set.len() == 48 * coeffs);
        assert(key_set.len() / 48 == coeffs) by (nonlinear_arith)
            requires
                key_set.len() == 48 * coeffs,
        ;
        assert(key_set.len() % 48 == 0) by (nonlinear_arith)
            requires
                key_set.len() == 48 * coeffs,
        ;
    }
}

/// A well-formed section authority provider that was written is read again.
pub proof fn lemma_sap_written(bytes: Seq<u8>, pos: int, sap: SapView)
    requires
        sap.wf(),
        0 <= pos,
        pos + sap.encode().len() <= bytes.len(),
        bytes.subrange(pos, pos + sap.encode().len()) == sap.encode(),
    ensures
        parse_sap(bytes, pos) == Some((sap, pos + sap.encode().len())),
{
    lemma_auto_spec_u16_to_from_le_bytes();
    lemma_auto_spec_u64_to_from_le_bytes();
    sap.prefix.lemma_from_parts();
    let a = spec_u16_to_le_bytes(sap.prefix.spec_bit_count() as u16);
    let b = sap.prefix.spec_name().bytes@;
    let c = spec_u64_to_le_bytes((sap.key_set.len() / 48) as u64);
    let d = sap.key_set;
    let e = spec_u64_to_le_bytes(sap.elders.len() as u64);
    let f = spec_encode_peers(sap.elders);
    lemma_split(bytes, pos, a + b + c + d + e, f);
    lemma_split(bytes, pos, a + b + c + d, e);
    lemma_split(bytes, pos, a + b + c, d);
    lemma_split(bytes, pos, a + b, c);
    lemma_split(bytes, pos, a, b);
    lemma_array_written::<32>(bytes, pos + 2, sap.prefix.spec_name().bytes);
    assert(parse_prefix(bytes, pos) == Some((sap.prefix, pos + 34)));
    assert(48 * (sap.key_set.len() / 48) == sap.key_set.len()) by (nonlinear_arith)
        requires
            sap.key_set.len() % 48 == 0,
    ;
    assert(sap.key_set.len() / 48 >= 1) by (nonlinear_arith)
        requires
            sap.key_set.len() >= 48,
    ;
    assert(sap.key_set.len() / 48 <= sap.key_set.len()) by (nonlinear_arith)
        requires
            sap.key_set.len() >= 0,
    ;
    assert(parse_key_set(bytes, pos + 34) == Some((sap.key_set, pos + 42 + sap.key_set.len())));
    lemma_peers_written(bytes, pos + 50 + sap.key_set.len(), sap.elders);
}

/// What is read as a signed section authority provider was written as the bytes that were
/// read.
pub proof fn lemma_entry_read(bytes: Seq<u8>, pos: int)
    ensures
        parse_entry(bytes, pos) matches Some((entry, q)) ==> {
            &&& 0 <= pos <= q <= bytes.len()
            &&& bytes.subrange(pos, q) == spec_encode_entry(entry)
            &&& entry.value.prefix.wf()
            &&& spec_key_set_bytes(entry.value.key_set)
            &&& peers_sorted(entry.value.elders)
        },
{
    if let Some((entry, end)) = parse_entry(bytes, pos) {
        let (value, q) = parse_sap(bytes, pos)->0;
        lemma_sap_read(bytes, pos);
        lemma_array_read::<48>(bytes, q);
        lemma_array_read::<96>(bytes, q + 48);
        lemma_join(bytes, pos, q, q + 48);
        lemma_join(bytes, pos, q + 48, end);
    }
}

/// A signed section authority provider that was written is read again.
pub proof fn lemma_entry_written(bytes: Seq<u8>, pos: int, entry: SignedSapView)
    requires
        entry.value.wf(),
        0 <= pos,
        pos + spec_encode_entry(entry).len() <= bytes.len(),
        bytes.subrange(pos, pos + spec_encode_entry(entry).len()) == spec_encode_entry(entry),
    ensures
        parse_entry(bytes, pos) == Some((entry, pos + spec_encode_entry(entry).len())),
{
    let a = entry.value.encode();
    let b = entry.sig.public_key.bytes@;
    let c = entry.sig.signature.bytes@;
    lemma_split(bytes, pos, a + b, c);
    lemma_split(bytes, pos, a, b);
    lemma_sap_written(bytes, pos, entry.value);
    lemma_array_written::<48>(bytes, pos + a.len(), entry.sig.public_key.bytes);
    lemma_array_written::<96>(bytes, pos + a.len() + 48, entry.sig.signature.bytes);
}

/// What is read as entries was written as the bytes that were read, and there are as many
/// as were asked for.
pub proof fn lemma_entries_read(bytes: Seq<u8>, pos: int, count: nat)
    ensures
        parse_entries(bytes, pos, count) matches Some((entries, q)) ==> {
            &&& 0 <= pos <= q <= bytes.len()
            &&& entries.len() == count
            &&& bytes.subrange(pos, q) == spec_encode_entries(entries)
            &&& forall|i: int|
                0 <= i < entries.len() ==> (#[trigger] entries[i]).value.prefix.wf()
                    && spec_key_set_bytes(entries[i].value.key_set) && peers_sorted(
                    entries[i].value.elders,
                )
        },
    decreases count,
{
    if let Some((entries, q)) = parse_entries(bytes, pos, count) {
        if count == 0 {
            assert(bytes.subrange(pos, pos) =~= Seq::<u8>::empty());
        } else {
            lemma_entries_read(bytes, pos, (count - 1) as nat);
            let (head, mid) = parse_entries(bytes, pos, (count - 1) as nat)->0;
            lemma_entry_read(bytes, mid);
            lemma_join(bytes, pos, mid, q);
            assert(entries.drop_last() =~= head);
            assert forall|i: int| 0 <= i < entries.len() implies (#[trigger] entries[i]).value.prefix.wf()
                && spec_key_set_bytes(entries[i].value.key_set) && peers_sorted(
                entries[i].value.elders,
            ) by {
                if i < head.len() {
                    assert(entries[i] == head[i]);
                }
            }
        }
    }
}

/// Entries that were written are read again.
pub proof fn lemma_entries_written(bytes: Seq<u8>, pos: int, entries: Seq<SignedSapView>)
    requires
        forall|i: int| 0 <= i < entries.len() ==> (#[trigger] entries[i]).value.wf(),
        0 <= pos,
        pos + spec_encode_entries(entries).len() <= bytes.len(),
        bytes.subrange(pos, pos + spec_encode_entries(entries).len()) == spec_encode_entries(
            entries,
        ),
    ensures
        parse_entries(bytes, pos, entries.len()) == Some(
            (entries, pos + spec_encode_entries(entries).len()),
        ),
    decreases entries.len(),
{
    if entries.len() > 0 {
        let head = spec_encode_entries(entries.drop_last());
        let last = spec_encode_entry(entries.last());
        lemma_split(bytes, pos, head, last);
        assert forall|i: int| 0 <= i < entries.drop_last().len() implies (#[trigger] entries.drop_last()[i]).value.wf() by {
            assert(entries.drop_last()[i] == entries[i]);
        }
        lemma_entries_written(bytes, pos, entries.drop_last());
        lemma_entry_written(bytes, pos + head.len(), entries.last());
        assert(entries.drop_last().push(entries.last()) =~= entries);
    }
}

/// Where fewer entries cannot be read, more cannot either.
pub proof fn lemma_entries_none(bytes: Seq<u8>, pos: int, fewer: nat, count: nat)
    requires
        fewer <= count,
        parse_entries(bytes, pos, fewer) is None,
    ensures
        parse_entries(bytes, pos, count) is None,
    decreases count,
{
    if fewer < count {
        lemma_entries_none(bytes, pos, fewer, (count - 1) as nat);
    }
}

/// What is read as a prefix map was written as exactly the bytes that were read.
pub proof fn lemma_map_read(bytes: Seq<u8>)
    ensures
        parse_map(bytes) matches Some((genesis_key, entries)) ==> spec_encode_map(
            genesis_key,
            entries,
        ) == bytes,
{
    lemma_auto_spec_u64_to_from_le_bytes();
    if let Some((genesis_key, entries)) = parse_map(bytes) {
        lemma_array_read::<48>(bytes, 0);
        let (count, r) = parse_u64(bytes, 48)->0;
        lemma_entries_read(bytes, 56, count as nat);
        lemma_join(bytes, 0, 48, 56);
        lemma_join(bytes, 0, 56, bytes.len() as int);
        assert(spec_u64_to_le_bytes(spec_u64_from_le_bytes(bytes.subrange(48, 56)))
            == bytes.subrange(48, 56));
        assert(bytes.subrange(0, bytes.len() as int) =~= bytes);
    }
}

/// A prefix map that was written is read again: the same genesis key and the same entries.
pub proof fn lemma_map_written(genesis_key: PublicKey, entries: Seq<SignedSapView>)
    requires
        entries.len() <= usize::MAX,
        forall|i: int| 0 <= i < entries.len() ==> (#[trigger] entries[i]).value.wf(),
    ensures
        parse_map(spec_encode_map(genesis_key, entries)) == Some((genesis_key, entries)),
{
    lemma_auto_spec_u64_to_from_le_bytes();
    let bytes = spec_encode_map(genesis_key, entries);
    let a = genesis_key.bytes@;
    let b = spec_u64_to_le_bytes(entries.len() as u64);
    let c = spec_encode_entries(entries);
    assert(bytes.subrange(0, bytes.len() as int) =~= bytes);
    lemma_split(bytes, 0, a + b, c);
    lemma_split(bytes, 0, a, b);
    lemma_array_written::<48>(bytes, 0, genesis_key.bytes);
    lemma_entries_written(bytes, 56, entries);
}

/// The `n` bytes at a place, and the place after them.
pub fn read_bytes<'a>(bytes: &'a [u8], pos: usize, n: usize) -> (r: Option<(&'a [u8], usize)>)
    ensures
        match r {
            Some((s, q)) => spec_take(bytes@, pos as int, n as int) == Some((s@, q as int)),
            None => spec_take(bytes@, pos as int, n as int) is None,
        },
{
    if n > bytes.len() || pos > bytes.len() - n {
        None
    } else {
        Some((slice_subrange(bytes, pos, pos + n), pos + n))
    }
}

/// Reads a number of two bytes.
pub fn read_u16(bytes: &[u8], pos: usize) -> (r: Option<(u16, usize)>)
    ensures
        match r {
            Some((x, q)) => parse_u16(bytes@, pos as int) == Some((x, q as int)),
            None => parse_u16(bytes@, pos as int) is None,
        },
{
    match read_bytes(bytes, pos, 2) {
        Some((s, q)) => Some((u16_from_le_bytes(s), q)),
        None => None,
    }
}

/// Reads a number of four bytes.
pub fn read_u32(bytes: &[u8], pos: usize) -> (r: Option<(u32, usize)>)
    ensures
        match r {
            Some((x, q)) => parse_u32(bytes@, pos as int) == Some((x, q as int)),
            None => parse_u32(bytes@, pos as int) is None,
        },
{
    match read_bytes(bytes, pos, 4) {
        Some((s, q)) => Some((u32_from_le_bytes(s), q)),
        None => None,
    }
}

/// Reads a number of eight bytes.
pub fn read_u64(bytes: &[u8], pos: usize) -> (r: Option<(u64, usize)>)
    ensures
        match r {
            Some((x, q)) => parse_u64(bytes@, pos as int) == Some((x, q as int)),
            None => parse_u64(bytes@, pos as int) is None,
        },
{
    match read_bytes(bytes, pos, 8) {
        Some((s, q)) => Some((u64_from_le_bytes(s), q)),
        None => None,
    }
}

/// Fills the array with the `N` bytes at a place, and says where they end.
pub fn read_array<const N: usize>(bytes: &[u8], pos: usize, array: &mut [u8; N]) -> (r: Option<usize>)
    ensures
        match r {
            Some(q) => parse_array::<N>(bytes@, pos as int) == Some((*final(array), q as int)),
            None => parse_array::<N>(bytes@, pos as int) is None,
        },
{
    match read_bytes(bytes, pos, N) {
        Some((s, q)) => {
            let mut i: usize = 0;
            while i < N
                invariant
                    i <= N,
                    s@.len() == N,
                    forall|k: int| 0 <= k < i ==> array@[k] == s@[k],
                decreases N - i,
            {
                array[i] = s[i];
                i += 1;
            }
            proof {
                assert(array@ =~= s@);
                lemma_array_of(*array);
            }
            Some(q)
        },
        None => None,
    }
}

/// Reads a name.
pub fn read_name(bytes: &[u8], pos: usize) -> (r: Option<(Name, usize)>)
    ensures
        match r {
            Some((name, q)) => parse_name(bytes@, pos as int) == Some((name, q as int)),
            None => parse_name(bytes@, pos as int) is None,
        },
{
    let mut array: [u8; 32] = [0u8; 32];
    match read_array::<32>(bytes, pos, &mut array) {
        Some(q) => Some((Name { bytes: array }, q)),
        None => None,
    }
}

/// Reads an address.
pub fn read_addr(bytes: &[u8], pos: usize) -> (r: Option<(Addr, usize)>)
    ensures
        match r {
            Some((addr, q)) => parse_addr(bytes@, pos as int) == Some((addr, q as int)),
            None => parse_addr(bytes@, pos as int) is None,
        },
{
    let (family, q) = match read_u32(bytes, pos) {
        Some(found) => found,
        None => {
            return None;
        },
    };
    let (ip, r) = if family == 0 {
        let mut octets: [u8; 4] = [0u8; 4];
        match read_array::<4>(bytes, q, &mut octets) {
            Some(r) => (Ip::V4(octets), r),
            None => {
                return None;
            },
        }
    } else if family == 1 {
        let mut octets: [u8; 16] = [0u8; 16];
        match read_array::<16>(bytes, q, &mut octets) {
            Some(r) => (Ip::V6(octets), r),
            None => {
                return None;
            },
        }
    } else {
        return None;
    };
    match read_u16(bytes, r) {
        Some((port, t)) => Some((Addr { ip, port }, t)),
        None => None,
    }
}

/// Reads a peer.
pub fn read_peer(bytes: &[u8], pos: usize) -> (r: Option<(Peer, usize)>)
    ensures
        match r {
            Some((peer, q)) => parse_peer(bytes@, pos as int) == Some((peer, q as int)),
            None => parse_peer(bytes@, pos as int) is None,
        },
{
    match read_name(bytes, pos) {
        Some((name, q)) => match read_addr(bytes, q) {
            Some((addr, r)) => Some((Peer { name, addr }, r)),
            None => None,
        },
        None => None,
    }
}

/// Reads `count` peers, one after the other.
pub fn read_peers(bytes: &[u8], pos: usize, count: u64) -> (r: Option<(Vec<Peer>, usize)>)
    ensures
        match r {
            Some((peers, q)) => parse_peers(bytes@, pos as int, count as nat) == Some(
                (peers@, q as int),
            ),
            None => parse_peers(bytes@, pos as int, count as nat) is None,
        },
{
    if pos > bytes.len() {
        proof {
            lemma_peers_none(bytes@, pos as int, 0, count as nat);
        }
        return None;
    }
    let mut peers: Vec<Peer> = Vec::new();
    let mut at: usize = pos;
    let mut i: u64 = 0;
    while i < count
        invariant
            i <= count,
            parse_peers(bytes@, pos as int, i as nat) == Some((peers@, at as int)),
        decreases count - i,
    {
        match read_peer(bytes, at) {
            Some((peer, next)) => {
                peers.push(peer);
                at = next;
            },
            None => {
                proof {
                    lemma_peers_none(bytes@, pos as int, (i + 1) as nat, count as nat);
                }
                return None;
            },
        }
        i += 1;
    }
    Some((peers, at))
}

/// Reads a prefix.
pub fn read_prefix(bytes: &[u8], pos: usize) -> (r: Option<(Prefix, usize)>)
    ensures
        match r {
            Some((prefix, q)) => parse_prefix(bytes@, pos as int) == Some((prefix, q as int))
                && prefix.wf(),
            None => parse_prefix(bytes@, pos as int) is None,
        },
{
    match read_u16(bytes, pos) {
        Some((bit_count, q)) => match read_name(bytes, q) {
            Some((name, r)) => match Prefix::from_parts(bit_count, name) {
                Some(prefix) => Some((prefix, r)),
                None => None,
            },
            None => None,
        },
        None => None,
    }
}

/// Reads a key set.
pub fn read_key_set(bytes: &[u8], pos: usize) -> (r: Option<(PublicKeySet, usize)>)
    ensures
        match r {
            Some((set, q)) => parse_key_set(bytes@, pos as int) == Some((set@, q as int)),
            None => parse_key_set(bytes@, pos as int) is None,
        },
{
    let (count, q) = match read_u64(bytes, pos) {
        Some(found) => found,
        None => {
            return None;
        },
    };
    if count < 1 {
        return None;
    }
    if count > (bytes.len() / 48) as u64 {
        return None;
    }
    let n: usize = 48 * (count as usize);
    match read_bytes(bytes, q, n) {
        Some((s, r)) => {
            let mut copy: Vec<u8> = Vec::new();
            copy.extend_from_slice(s);
            match PublicKeySet::from_bytes(copy) {
                Some(set) => Some((set, r)),
                None => {
                    proof {
                        assert(s@.len() % 48 == 0) by (nonlinear_arith)
                            requires
                                s@.len() == 48 * count,
                        ;
                    }
                    None
                },
            }
        },
        None => None,
    }
}

/// Reads a section authority provider.
pub fn read_sap(bytes: &[u8], pos: usize) -> (r: Option<(SectionAuthorityProvider, usize)>)
    ensures
        match r {
            Some((sap, q)) => parse_sap(bytes@, pos as int) == Some((sap@, q as int)) && sap.wf(),
            None => parse_sap(bytes@, pos as int) is None,
        },
{
    let (prefix, q) = match read_prefix(bytes, pos) {
        Some(found) => found,
        None => {
            return None;
        },
    };
    let (key_set, r) = match read_key_set(bytes, q) {
        Some(found) => found,
        None => {
            return None;
        },
    };
    let (count, t) = match read_u64(bytes, r) {
        Some(found) => found,
        None => {
            return None;
        },
    };
    let (elders, u) = match read_peers(bytes, t, count) {
        Some(found) => found,
        None => {
            return None;
        },
    };
    match SectionAuthorityProvider::from_parts(prefix, key_set, elders) {
        Some(sap) => Some((sap, u)),
        None => None,
    }
}

/// Reads a signed section authority provider.
pub fn read_entry(bytes: &[u8], pos: usize) -> (r: Option<(SignedSap, usize)>)
    ensures
        match r {
            Some((entry, q)) => parse_entry(bytes@, pos as int) == Some((entry@, q as int))
                && entry@.value.wf(),
            None => parse_entry(bytes@, pos as int) is None,
        },
{
    let (value, q) = match read_sap(bytes, pos) {
        Some(found) => found,
        None => {
            return None;
        },
    };
    let mut key: [u8; 48] = [0u8; 48];
    let r = match read_array::<48>(bytes, q, &mut key) {
        Some(r) => r,
        None => {
            return None;
        },
    };
    let mut signature: [u8; 96] = [0u8; 96];
    let t = match read_array::<96>(bytes, r, &mut signature) {
        Some(t) => t,
        None => {
            return None;
        },
    };
    let entry = SignedSap::new(
        value,
        Signed { public_key: PublicKey { bytes: key }, signature: Signature { bytes: signature } },
    );
    Some((entry, t))
}

/// Appends a signed section authority provider to the bytes.
pub fn write_entry(out: &mut Vec<u8>, entry: &SignedSap)
    ensures
        final(out)@ == old(out)@ + spec_encode_entry(entry@),
{
    let ghost before = out@;
    let value = entry.value.encode();
    out.extend_from_slice(value.as_slice());
    out.extend_from_slice(entry.sig.public_key.bytes.as_slice());
    out.extend_from_slice(entry.sig.signature.bytes.as_slice());
    assert(out@ =~= before + spec_encode_entry(entry@));
}

} // verus!
