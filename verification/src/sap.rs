//! Section authority providers: who the elders of a section are, under which key they sign,
//! and the signature that makes the statement believable.

use vstd::prelude::*;
use vstd::bytes::*;
use crate::bls::{
    bls_verifies, bytes_eq, spec_key_set_bytes, spec_public_key, verify_signature, PublicKey,
    PublicKeySet, Signature,
};
use crate::name::{lemma_lt_total, lemma_lt_transitive, Name, Prefix};

verus! {

/// An IP address by its octets.
#[derive(Clone, Copy, Debug, PartialEq, Eq)]
pub enum Ip {
    V4([u8; 4]),
    V6([u8; 16]),
}

/// Where a peer can be reached.
#[derive(Clone, Copy, Debug, PartialEq, Eq)]
pub struct Addr {
    pub ip: Ip,
    pub port: u16,
}

/// A peer: its name and where it can be reached.
#[derive(Clone, Copy, Debug, PartialEq, Eq)]
pub struct Peer {
    pub name: Name,
    pub addr: Addr,
}

/// A public key with a signature made by its secret key.
#[derive(Clone, Copy, Debug, PartialEq, Eq)]
pub struct Signed {
    pub public_key: PublicKey,
    pub signature: Signature,
}

/// The authority of one section: its prefix, the key set of its elders, and the elders,
/// in the order of their names and each name once.
#[derive(Debug)]
pub struct SectionAuthorityProvider {
    prefix: Prefix,
    public_key_set: PublicKeySet,
    elders: Vec<Peer>,
}

/// A section authority provider with the signature of the section that vouches for it.
#[derive(Debug)]
pub struct SignedSap {
    pub value: SectionAuthorityProvider,
    pub sig: Signed,
}

impl Addr {
    /// Whether the two are the same.
    pub fn same(&self, other: &Addr) -> (r: bool)
        ensures
            r == (*self == *other),
    {
        if self.port != other.port {
            return false;
        }
        match (&self.ip, &other.ip) {
            (Ip::V4(a), Ip::V4(b)) => bytes_eq(a, b),
            (Ip::V6(a), Ip::V6(b)) => bytes_eq(a, b),
            _ => false,
        }
    }
}

impl Peer {
    /// The peer with the name, reachable at the address.
    pub fn new(name: Name, addr: Addr) -> (peer: Peer)
        ensures
            peer == (Peer { name, addr }),
    {
        Peer { name, addr }
    }

    /// The peer's age, which its name carries.
    pub fn age(&self) -> (age: u8)
        ensures
            age == self.name.bytes[31],
    {
        self.name.age()
    }

    /// Whether the two are the same.
    pub fn same(&self, other: &Peer) -> (r: bool)
        ensures
            r == (*self == *other),
    {
        self.name.same(&other.name) && self.addr.same(&other.addr)
    }
}

impl Signed {
    /// Whether the signature is good for the payload under the key.
    pub fn verify(&self, payload: &[u8]) -> (ok: bool)
        ensures
            ok == bls_verifies(self.public_key.bytes@, self.signature.bytes@, payload@),
    {
        verify_signature(&self.public_key, &self.signature, payload)
    }

    /// Whether the two are the same.
    pub fn same(&self, other: &Signed) -> (r: bool)
        ensures
            r == (*self == *other),
    {
        self.public_key.same(&other.public_key) && self.signature.same(&other.signature)
    }
}

/// Peers in the strict order of their names.
pub open spec fn peers_sorted(peers: Seq<Peer>) -> bool {
    forall|i: int, j: int|
        0 <= i < j < peers.len() ==> (#[trigger] peers[i]).name.spec_lt(&(#[trigger] peers[j]).name)
}

/// Whether one of the peers has the name.
pub open spec fn has_name(peers: Seq<Peer>, name: Name) -> bool {
    exists|i: int| 0 <= i < peers.len() && (#[trigger] peers[i]).name == name
}

/// The peers that a list of candidates leaves: of several with one name, the last.
pub open spec fn last_of_each_name(candidates: Seq<Peer>, peer: Peer) -> bool {
    exists|i: int|
        0 <= i < candidates.len() && #[trigger] candidates[i] == peer && forall|j: int|
            i < j < candidates.len() ==> (#[trigger] candidates[j]).name != peer.name
}

/// An address as bytes: the family as four bytes, the octets, the port; numbers with the low
/// byte first.
pub open spec fn spec_encode_addr(addr: Addr) -> Seq<u8> {
    (match addr.ip {
        Ip::V4(octets) => spec_u32_to_le_bytes(0) + octets@,
        Ip::V6(octets) => spec_u32_to_le_bytes(1) + octets@,
    }) + spec_u16_to_le_bytes(addr.port)
}

/// A peer as bytes: the name, then the address.
pub open spec fn spec_encode_peer(peer: Peer) -> Seq<u8> {
    peer.name.bytes@ + spec_encode_addr(peer.addr)
}

/// Peers as bytes, one after the other.
pub open spec fn spec_encode_peers(peers: Seq<Peer>) -> Seq<u8>
    decreases peers.len(),
{
    if peers.len() == 0 {
        Seq::empty()
    } else {
        spec_encode_peers(peers.drop_last()) + spec_encode_peer(peers.last())
    }
}

/// A section authority provider as the bytes that its section signs: the prefix (length and
/// name), the key set (number of coefficients, then the coefficients), the elders (their
/// number, then each); numbers with the low byte first.
pub open spec fn spec_encode_sap(prefix: Prefix, key_set: Seq<u8>, elders: Seq<Peer>) -> Seq<u8> {
    spec_u16_to_le_bytes(prefix.spec_bit_count() as u16) + prefix.spec_name().bytes@
        + spec_u64_to_le_bytes((key_set.len() / 48) as u64) + key_set + spec_u64_to_le_bytes(
        elders.len() as u64,
    ) + spec_encode_peers(elders)
}

/// Appends an address to the bytes.
pub fn encode_addr(out: &mut Vec<u8>, addr: &Addr)
    ensures
        final(out)@ == old(out)@ + spec_encode_addr(*addr),
{
    let ghost before = out@;
    match &addr.ip {
        Ip::V4(octets) => {
            let family = u32_to_le_bytes(0);
            out.extend_from_slice(family.as_slice());
            out.extend_from_slice(octets.as_slice());
        },
        Ip::V6(octets) => {
            let family = u32_to_le_bytes(1);
            out.extend_from_slice(family.as_slice());
            out.extend_from_slice(octets.as_slice());
        },
    }
    let port = u16_to_le_bytes(addr.port);
    out.extend_from_slice(port.as_slice());
    assert(out@ =~= before + spec_encode_addr(*addr));
}

/// Appends a peer to the bytes.
pub fn encode_peer(out: &mut Vec<u8>, peer: &Peer)
    ensures
        final(out)@ == old(out)@ + spec_encode_peer(*peer),
{
    let ghost before = out@;
    out.extend_from_slice(peer.name.bytes.as_slice());
    encode_addr(out, &peer.addr);
    assert(out@ =~= before + spec_encode_peer(*peer));
}

/// A copy of a list of peers.
pub fn copy_peers(peers: &Vec<Peer>) -> (copy: Vec<Peer>)
    ensures
        copy@ == peers@,
{
    let mut copy: Vec<Peer> = Vec::new();
    let mut i: usize = 0;
    while i < peers.len()
        invariant
            i <= peers.len(),
            copy@ == peers@.take(i as int),
        decreases peers.len() - i,
    {
        copy.push(peers[i]);
        assert(peers@.take(i + 1) == peers@.take(i as int).push(peers@[i as int]));
        i += 1;
    }
    assert(peers@.take(peers.len() as int) == peers@);
    copy
}

/// Puts a peer into a list that is in the order of its names: in the place of the peer with
/// the same name, or else where its name belongs.
pub fn insert_peer(peers: &mut Vec<Peer>, peer: Peer)
    requires
        peers_sorted(old(peers)@),
    ensures
        peers_sorted(final(peers)@),
        forall|q: Peer|
            final(peers)@.contains(q) <==> q == peer || (old(peers)@.contains(q) && q.name
                != peer.name),
{
    let ghost before = peers@;
    let mut i: usize = 0;
    while i < peers.len() && peers[i].name.lt(&peer.name)
        invariant
            i <= peers.len(),
            peers@ == before,
            forall|k: int| 0 <= k < i ==> (#[trigger] before[k]).name.spec_lt(&peer.name),
        decreases peers.len() - i,
    {
        i += 1;
    }
    if i < peers.len() && peers[i].name.same(&peer.name) {
        peers[i] = peer;
        proof {
            let after = peers@;
            assert(after == before.update(i as int, peer));
            assert forall|a: int, b: int| 0 <= a < b < after.len() implies (#[trigger] after[a]).name.spec_lt(
                &(#[trigger] after[b]).name,
            ) by {
                assert(before[a].name.spec_lt(&before[b].name));
            }
            assert forall|q: Peer|
                after.contains(q) <==> q == peer || (before.contains(q) && q.name != peer.name) by {
                if after.contains(q) {
                    let k = choose|k: int| 0 <= k < after.len() && after[k] == q;
                    if k != i {
                        assert(before[k] == q);
                        lemma_lt_total(before[k].name, before[i as int].name);
                        if k < i {
                            assert(before[k].name.spec_lt(&before[i as int].name));
                        } else {
                            assert(before[i as int].name.spec_lt(&before[k].name));
                        }
                    }
                }
                if q == peer {
                    assert(after[i as int] == q);
                }
                if before.contains(q) && q.name != peer.name {
                    let k = choose|k: int| 0 <= k < before.len() && before[k] == q;
                    assert(after[k] == q);
                }
            }
        }
    } else {
        peers.insert(i, peer);
        proof {
            let after = peers@;
            assert(after == before.insert(i as int, peer));
            assert(after.len() == before.len() + 1);
            assert(forall|k: int| 0 <= k < i ==> after[k] == before[k]);
            assert(after[i as int] == peer);
            assert(forall|k: int| i < k < after.len() ==> after[k] == before[k - 1]);
            assert forall|k: int| i <= k < before.len() implies peer.name.spec_lt(
                &(#[trigger] before[k]).name,
            ) by {
                lemma_lt_total(before[i as int].name, peer.name);
                if k > i {
                    assert(before[i as int].name.spec_lt(&before[k].name));
                    lemma_lt_transitive(peer.name, before[i as int].name, before[k].name);
                }
            }
            assert forall|a: int, b: int| 0 <= a < b < after.len() implies (#[trigger] after[a]).name.spec_lt(
                &(#[trigger] after[b]).name,
            ) by {
                if b < i {
                    assert(before[a].name.spec_lt(&before[b].name));
                } else if b == i {
                } else if a < i {
                    assert(before[a].name.spec_lt(&before[b - 1].name));
                } else if a == i {
                    assert(peer.name.spec_lt(&before[b - 1].name));
                } else {
                    assert(before[a - 1].name.spec_lt(&before[b - 1].name));
                }
            }
            assert forall|q: Peer|
                after.contains(q) <==> q == peer || (before.contains(q) && q.name != peer.name) by {
                if after.contains(q) {
                    let k = choose|k: int| 0 <= k < after.len() && after[k] == q;
                    if k < i {
                        assert(before[k] == q);
                        lemma_lt_total(before[k].name, peer.name);
                    } else if k > i {
                        assert(before[k - 1] == q);
                        lemma_lt_total(peer.name, before[k - 1].name);
                    }
                }
                if q == peer {
                    assert(after[i as int] == q);
                }
                if before.contains(q) && q.name != peer.name {
                    let k = choose|k: int| 0 <= k < before.len() && before[k] == q;
                    if k < i {
                        assert(after[k] == q);
                    } else {
                        assert(after[k + 1] == q);
                    }
                }
            }
        }
    }
}

/// A section authority provider as plain values.
pub struct SapView {
    pub prefix: Prefix,
    pub key_set: Seq<u8>,
    pub elders: Seq<Peer>,
}

/// A signed section authority provider as plain values.
pub struct SignedSapView {
    pub value: SapView,
    pub sig: Signed,
}

impl SapView {
    /// The parts are well formed, the elders stand in the strict order of their names, and
    /// neither the key set nor the elders are more than a machine can count.
    pub open spec fn wf(self) -> bool {
        &&& self.prefix.wf()
        &&& spec_key_set_bytes(self.key_set)
        &&& peers_sorted(self.elders)
        &&& self.key_set.len() <= usize::MAX
        &&& self.elders.len() <= usize::MAX
    }

    /// The key under which the section signs.
    pub open spec fn section_key(self) -> Seq<u8> {
        spec_public_key(self.key_set)
    }

    /// The bytes that the section signs.
    pub open spec fn encode(self) -> Seq<u8> {
        spec_encode_sap(self.prefix, self.key_set, self.elders)
    }
}

impl SignedSapView {
    /// Whether the signature is good for the provider's bytes under the key that comes with
    /// it.
    pub open spec fn self_verify(self) -> bool {
        bls_verifies(self.sig.public_key.bytes@, self.sig.signature.bytes@, self.value.encode())
    }

    /// Whether the signature is good and made with the key that the provider names as the
    /// section's.
    pub open spec fn authentic(self) -> bool {
        self.self_verify() && self.sig.public_key.bytes@ == self.value.section_key()
    }
}

impl View for SectionAuthorityProvider {
    type V = SapView;

    closed spec fn view(&self) -> SapView {
        SapView { prefix: self.prefix, key_set: self.public_key_set@, elders: self.elders@ }
    }
}

impl View for SignedSap {
    type V = SignedSapView;

    open spec fn view(&self) -> SignedSapView {
        SignedSapView { value: self.value@, sig: self.sig }
    }
}

impl SectionAuthorityProvider {
    /// The parts are well formed and the elders stand in the strict order of their names.
    /// Every section authority provider that the program holds is of this form.
    #[verifier::type_invariant]
    pub closed spec fn wf(&self) -> bool {
        &&& self.prefix.wf()
        &&& self.public_key_set.well_formed()
        &&& peers_sorted(self.elders@)
    }

    /// The prefix of the section.
    pub open spec fn spec_prefix(&self) -> Prefix {
        self@.prefix
    }

    /// The bytes of the key set.
    pub open spec fn spec_key_set(&self) -> Seq<u8> {
        self@.key_set
    }

    /// The elders, in the order of their names.
    pub open spec fn spec_elders(&self) -> Seq<Peer> {
        self@.elders
    }

    /// The key under which the section signs.
    pub open spec fn spec_section_key(&self) -> Seq<u8> {
        self@.section_key()
    }

    /// The bytes that the section signs.
    pub open spec fn spec_encode(&self) -> Seq<u8> {
        self@.encode()
    }

    /// What the invariant says, for code that holds a value of the type.
    pub proof fn lemma_wf(&self)
        requires
            self.wf(),
        ensures
            self@.wf(),
    {
        self.public_key_set.lemma_len();
        let _ = self.elders.len();
    }

    /// The authority with the given parts, if the elders stand in the strict order of their
    /// names.
    pub fn from_parts(prefix: Prefix, public_key_set: PublicKeySet, elders: Vec<Peer>) -> (r: Option<
        Self,
    >)
        ensures
            r is Some <==> peers_sorted(elders@),
            r matches Some(sap) ==> sap.wf() && sap@ == (SapView {
                prefix,
                key_set: public_key_set@,
                elders: elders@,
            }),
    {
        let mut i: usize = 1;
        while i < elders.len()
            invariant
                1 <= i,
                forall|a: int, b: int|
                    0 <= a < b < i && b < elders@.len() ==> (#[trigger] elders@[a]).name.spec_lt(
                        &(#[trigger] elders@[b]).name,
                    ),
            decreases elders.len() - i,
        {
            if !elders[i - 1].name.lt(&elders[i].name) {
                return None;
            }
            proof {
                assert forall|a: int, b: int| 0 <= a < b < i + 1 && b < elders@.len() implies (#[trigger] elders@[a]).name.spec_lt(
                    &(#[trigger] elders@[b]).name,
                ) by {
                    if b == i && a < i - 1 {
                        assert(elders@[a].name.spec_lt(&elders@[i - 1].name));
                        lemma_lt_transitive(
                            elders@[a].name,
                            elders@[i - 1].name,
                            elders@[i as int].name,
                        );
                    }
                }
            }
            i += 1;
        }
        proof {
            use_type_invariant(&prefix);
            use_type_invariant(&public_key_set);
        }
        Some(SectionAuthorityProvider { prefix, public_key_set, elders })
    }

    /// The authority of the section with the given prefix and key set, whose elders are the
    /// given peers: of several with one name the last counts, as in a map from names.
    pub fn new(elders: Vec<Peer>, prefix: Prefix, public_key_set: PublicKeySet) -> (sap: Self)
        ensures
            sap.wf(),
            sap.spec_prefix() == prefix,
            sap.spec_key_set() == public_key_set@,
            peers_sorted(sap.spec_elders()),
            forall|q: Peer| sap.spec_elders().contains(q) <==> last_of_each_name(elders@, q),
    {
        let mut sorted: Vec<Peer> = Vec::new();
        let mut i: usize = 0;
        while i < elders.len()
            invariant
                i <= elders.len(),
                peers_sorted(sorted@),
                forall|q: Peer| sorted@.contains(q) <==> last_of_each_name(elders@.take(i as int), q),
            decreases elders.len() - i,
        {
            let ghost before = sorted@;
            let peer = elders[i];
            insert_peer(&mut sorted, peer);
            proof {
                let seen = elders@.take(i as int);
                let next = elders@.take(i + 1);
                assert(next == seen.push(peer));
                assert forall|q: Peer| sorted@.contains(q) <==> last_of_each_name(next, q) by {
                    if last_of_each_name(next, q) {
                        let k = choose|k: int|
                            0 <= k < next.len() && #[trigger] next[k] == q && forall|j: int|
                                k < j < next.len() ==> (#[trigger] next[j]).name != q.name;
                        if k < i {
                            assert(seen[k] == q);
                            assert(next[i as int].name != q.name);
                            assert forall|j: int| k < j < seen.len() implies (#[trigger] seen[j]).name
                                != q.name by {
                                assert(next[j] == seen[j]);
                            }
                            assert(last_of_each_name(seen, q));
                        }
                    }
                    if sorted@.contains(q) {
                        if q == peer {
                            assert(next[i as int] == q);
                        } else {
                            assert(before.contains(q) && q.name != peer.name);
                            let k = choose|k: int|
                                0 <= k < seen.len() && #[trigger] seen[k] == q && forall|j: int|
                                    k < j < seen.len() ==> (#[trigger] seen[j]).name != q.name;
                            assert(next[k] == q);
                            assert forall|j: int| k < j < next.len() implies (#[trigger] next[j]).name
                                != q.name by {
                                if j < i {
                                    assert(seen[j] == next[j]);
                                }
                            }
                        }
                    }
                }
            }
            i += 1;
        }
        proof {
            use_type_invariant(&prefix);
            use_type_invariant(&public_key_set);
            assert(elders@.take(elders.len() as int) == elders@);
        }
        SectionAuthorityProvider { prefix, public_key_set, elders: sorted }
    }

    /// The prefix of the section.
    pub fn prefix(&self) -> (prefix: Prefix)
        ensures
            prefix == self.spec_prefix(),
            prefix.wf(),
    {
        proof {
            use_type_invariant(self);
        }
        self.prefix
    }

    /// The key set of the elders.
    pub fn public_key_set(&self) -> (set: &PublicKeySet)
        ensures
            set@ == self.spec_key_set(),
            set.well_formed(),
    {
        proof {
            use_type_invariant(self);
        }
        &self.public_key_set
    }

    /// The key under which the section signs.
    pub fn section_key(&self) -> (key: PublicKey)
        ensures
            key.bytes@ == self.spec_section_key(),
    {
        self.public_key_set.public_key()
    }

    /// The elders, in the order of their names.
    pub fn elders(&self) -> (elders: &Vec<Peer>)
        ensures
            elders@ == self.spec_elders(),
            peers_sorted(elders@),
    {
        proof {
            use_type_invariant(self);
        }
        &self.elders
    }

    /// The elders, in the order of their names.
    pub fn elders_vec(&self) -> (elders: Vec<Peer>)
        ensures
            elders@ == self.spec_elders(),
    {
        copy_peers(&self.elders)
    }

    /// The number of elders.
    pub fn elder_count(&self) -> (n: usize)
        ensures
            n == self.spec_elders().len(),
    {
        self.elders.len()
    }

    /// The elder with the given name.
    pub fn get_elder(&self, name: &Name) -> (r: Option<Peer>)
        ensures
            match r {
                Some(peer) => peer.name == *name && self.spec_elders().contains(peer),
                None => !has_name(self.spec_elders(), *name),
            },
    {
        let mut i: usize = 0;
        while i < self.elders.len()
            invariant
                i <= self.elders.len(),
                forall|k: int| 0 <= k < i ==> (#[trigger] self.elders@[k]).name != *name,
            decreases self.elders.len() - i,
        {
            if self.elders[i].name.same(name) {
                return Some(self.elders[i]);
            }
            i += 1;
        }
        None
    }

    /// Whether one of the elders has the name.
    pub fn contains_elder(&self, name: &Name) -> (r: bool)
        ensures
            r == has_name(self.spec_elders(), *name),
    {
        self.get_elder(name).is_some()
    }

    /// The bytes that the section signs.
    pub fn encode(&self) -> (bytes: Vec<u8>)
        ensures
            bytes@ == self.spec_encode(),
    {
        proof {
            use_type_invariant(self);
        }
        let mut out: Vec<u8> = Vec::new();
        let bit_count = u16_to_le_bytes(self.prefix.bit_count() as u16);
        out.extend_from_slice(bit_count.as_slice());
        out.extend_from_slice(self.prefix.name().bytes.as_slice());
        let set = self.public_key_set.as_bytes();
        let coefficients = u64_to_le_bytes((set.len() / 48) as u64);
        out.extend_from_slice(coefficients.as_slice());
        out.extend_from_slice(set);
        let count = u64_to_le_bytes(self.elders.len() as u64);
        out.extend_from_slice(count.as_slice());
        let ghost head = out@;
        let mut i: usize = 0;
        while i < self.elders.len()
            invariant
                i <= self.elders.len(),
                out@ == head + spec_encode_peers(self.elders@.take(i as int)),
            decreases self.elders.len() - i,
        {
            encode_peer(&mut out, &self.elders[i]);
            proof {
                let next = self.elders@.take(i + 1);
                assert(next.drop_last() == self.elders@.take(i as int));
                assert(next.last() == self.elders@[i as int]);
                assert(out@ =~= head + spec_encode_peers(next));
            }
            i += 1;
        }
        proof {
            assert(self.elders@.take(self.elders.len() as int) == self.elders@);
            assert(head =~= spec_u16_to_le_bytes(self.prefix.spec_bit_count() as u16)
                + self.prefix.spec_name().bytes@ + spec_u64_to_le_bytes(
                (self.public_key_set@.len() / 48) as u64,
            ) + self.public_key_set@ + spec_u64_to_le_bytes(self.elders@.len() as u64));
        }
        out
    }

    /// Whether the two are the same.
    pub fn same(&self, other: &SectionAuthorityProvider) -> (r: bool)
        ensures
            r == (self@ == other@),
    {
        if !self.prefix.same(&other.prefix) || !self.public_key_set.same(&other.public_key_set)
            || self.elders.len() != other.elders.len() {
            return false;
        }
        let mut i: usize = 0;
        while i < self.elders.len()
            invariant
                i <= self.elders.len(),
                self.elders.len() == other.elders.len(),
                forall|k: int| 0 <= k < i ==> self.elders@[k] == other.elders@[k],
            decreases self.elders.len() - i,
        {
            if !self.elders[i].same(&other.elders[i]) {
                return false;
            }
            i += 1;
        }
        assert(self.elders@ =~= other.elders@);
        true
    }
}

impl Clone for SectionAuthorityProvider {
    fn clone(&self) -> (copy: Self)
        ensures
            copy@ == self@,
            copy.wf(),
    {
        proof {
            use_type_invariant(self);
        }
        SectionAuthorityProvider {
            prefix: self.prefix,
            public_key_set: self.public_key_set.clone(),
            elders: copy_peers(&self.elders),
        }
    }
}

impl SignedSap {
    /// Whether the signature is good for the provider's bytes under the key that comes with
    /// it.
    pub open spec fn spec_self_verify(&self) -> bool {
        self@.self_verify()
    }

    /// Whether the signature is good and made with the key that the provider names as the
    /// section's.
    pub open spec fn spec_authentic(&self) -> bool {
        self@.authentic()
    }

    /// The authority with the signature under it.
    pub fn new(value: SectionAuthorityProvider, sig: Signed) -> (signed: SignedSap)
        ensures
            signed@ == (SignedSapView { value: value@, sig }),
            signed@.value.wf(),
    {
        proof {
            use_type_invariant(&value);
            value.lemma_wf();
        }
        SignedSap { value, sig }
    }

    /// Whether the signature is good for the provider's bytes under the key that comes with
    /// it.
    pub fn self_verify(&self) -> (ok: bool)
        ensures
            ok == self.spec_self_verify(),
    {
        let payload = self.value.encode();
        self.sig.verify(payload.as_slice())
    }

    /// Whether the signature is good and made with the section's own key.
    pub fn is_authentic(&self) -> (ok: bool)
        ensures
            ok == self.spec_authentic(),
    {
        self.self_verify() && self.sig.public_key.same(&self.value.section_key())
    }

    /// The prefix of the section.
    pub fn prefix(&self) -> (prefix: Prefix)
        ensures
            prefix == self.value.spec_prefix(),
            prefix.wf(),
    {
        self.value.prefix()
    }

    /// The key under which the section signs.
    pub fn section_key(&self) -> (key: PublicKey)
        ensures
            key.bytes@ == self.value.spec_section_key(),
    {
        self.value.section_key()
    }

    /// Whether the two are the same.
    pub fn same(&self, other: &SignedSap) -> (r: bool)
        ensures
            r == (self@ == other@),
    {
        self.value.same(&other.value) && self.sig.same(&other.sig)
    }
}

impl Clone for SignedSap {
    fn clone(&self) -> (copy: Self)
        ensures
            copy@ == self@,
    {
        SignedSap { value: self.value.clone(), sig: self.sig }
    }
}

} // verus!
