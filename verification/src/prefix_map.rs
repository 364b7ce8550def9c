//! The prefix map: for each prefix, the latest signed authority that is known for it.

use vstd::prelude::*;
use vstd::bytes::*;
use secured_linked_list::SecuredLinkedList;
use crate::bls::PublicKey;
use crate::chain::{
    chain_get_proof_chain, chain_key_list, chain_keys, chain_last_key, chain_path,
    chain_root_key, chain_self_verify, chain_verified, spec_last, spec_root,
};
use crate::codec::{
    lemma_entries_none, lemma_map_read, lemma_map_written, parse_array, parse_entries, parse_map,
    parse_u64, read_array,
    read_entry, read_u64, spec_encode_entries, spec_encode_map, write_entry,
};
use crate::error::NodeError;
use crate::name::{Name, Prefix};
use crate::sap::{SapView, SectionAuthorityProvider, SignedSap, SignedSapView};

verus! {

/// What is known of the sections of a network: at most one signed authority for each prefix,
/// each of them checked when it came in. The genesis key is the key that all trust starts
/// from.
#[derive(Debug)]
pub struct NetworkPrefixMap {
    genesis_key: PublicKey,
    sections: Vec<SignedSap>,
}

/// No two entries have one prefix.
pub open spec fn distinct_prefixes(s: Seq<SignedSapView>) -> bool {
    forall|i: int, j: int|
        0 <= i < j < s.len() ==> (#[trigger] s[i]).value.prefix != (#[trigger] s[j]).value.prefix
}

/// Every entry is well formed and vouched for by its own section key.
pub open spec fn all_authentic(s: Seq<SignedSapView>) -> bool {
    forall|i: int| 0 <= i < s.len() ==> (#[trigger] s[i]).value.wf() && s[i].authentic()
}

/// Whether an entry has the prefix.
pub open spec fn has_prefix(s: Seq<SignedSapView>, prefix: Prefix) -> bool {
    exists|i: int| 0 <= i < s.len() && (#[trigger] s[i]).value.prefix == prefix
}

/// Where the entry with the prefix stands.
pub open spec fn index_of_prefix(s: Seq<SignedSapView>, prefix: Prefix) -> int {
    choose|i: int| 0 <= i < s.len() && (#[trigger] s[i]).value.prefix == prefix
}

/// The entries with one more: in the place of the entry with the same prefix, or else at the
/// end.
pub open spec fn put_section(s: Seq<SignedSapView>, new: SignedSapView) -> Seq<SignedSapView> {
    if has_prefix(s, new.value.prefix) {
        s.update(index_of_prefix(s, new.value.prefix), new)
    } else {
        s.push(new)
    }
}

/// The keys as bytes.
pub open spec fn key_bytes(keys: Seq<PublicKey>) -> Seq<Seq<u8>> {
    keys.map_values(|k: PublicKey| k.bytes@)
}

/// The keys that a map vouches for: the genesis key and the key of each entry.
pub open spec fn known_keys(genesis_key: PublicKey, s: Seq<SignedSapView>) -> Seq<Seq<u8>> {
    seq![genesis_key.bytes@] + s.map_values(|e: SignedSapView| e.sig.public_key.bytes@)
}

/// What a map knows of the prefix of an authority that comes in.
#[derive(Clone, Copy, PartialEq, Eq, Structural, Debug)]
pub enum Known {
    /// No entry has the prefix.
    Nothing,
    /// The entry with the prefix has the same section key.
    SameKey,
    /// The entry with the prefix has a key from which the chain leads to the new key.
    EarlierKey,
    /// The entry with the prefix has a key that the chain does not lead from.
    OtherKey,
}

/// What was found of an authority that comes in with a chain of keys.
#[derive(Clone, Copy, Debug)]
pub struct UpdateFacts {
    /// The signature is good for the authority under the key that comes with it.
    pub verifies: bool,
    /// That key is the one that the authority names as its section's.
    pub signed_by_section_key: bool,
    /// The chain ends in that key.
    pub chain_ends_in_key: bool,
    /// Every key of the chain is signed by the one before it.
    pub chain_verifies: bool,
    /// The chain starts at a key that is trusted.
    pub root_trusted: bool,
    /// What the map knows of the authority's prefix.
    pub known: Known,
}

/// What becomes of an update, given what was found.
///
/// The authority must verify under its own section key; the chain must end in that key,
/// verify, and start at a trusted key: the first of these that fails gives the error, and the
/// ones after it do not matter. Then a new prefix is stored; an entry with the same key is
/// left alone; an entry with an earlier key is replaced; an entry with another key stays, and
/// the update is refused.
pub open spec fn spec_update_decision(facts: UpdateFacts) -> Result<bool, NodeError> {
    if !facts.verifies {
        Err(NodeError::InvalidSignature)
    } else if !facts.signed_by_section_key {
        Err(NodeError::UntrustedSectionAuthProvider)
    } else if !facts.chain_ends_in_key {
        Err(NodeError::UntrustedSectionAuthProvider)
    } else if !facts.chain_verifies {
        Err(NodeError::UntrustedProofChain)
    } else if !facts.root_trusted {
        Err(NodeError::UntrustedProofChain)
    } else {
        match facts.known {
            Known::Nothing => Ok(true),
            Known::SameKey => Ok(false),
            Known::EarlierKey => Ok(true),
            Known::OtherKey => Err(NodeError::UntrustedSectionAuthProvider),
        }
    }
}

/// What becomes of an update, given what was found.
pub fn update_decision(facts: UpdateFacts) -> (r: Result<bool, NodeError>)
    ensures
        r == spec_update_decision(facts),
{
    if !facts.verifies {
        Err(NodeError::InvalidSignature)
    } else if !facts.signed_by_section_key {
        Err(NodeError::UntrustedSectionAuthProvider)
    } else if !facts.chain_ends_in_key {
        Err(NodeError::UntrustedSectionAuthProvider)
    } else if !facts.chain_verifies {
        Err(NodeError::UntrustedProofChain)
    } else if !facts.root_trusted {
        Err(NodeError::UntrustedProofChain)
    } else {
        match facts.known {
            Known::Nothing => Ok(true),
            Known::SameKey => Ok(false),
            Known::EarlierKey => Ok(true),
            Known::OtherKey => Err(NodeError::UntrustedSectionAuthProvider),
        }
    }
}

/// What there is to find of an authority that comes in with a chain of keys, given the
/// entries of the map and the keys that are trusted.
pub open spec fn spec_update_facts(
    s: Seq<SignedSapView>,
    trusted: Seq<Seq<u8>>,
    new: SignedSapView,
    proof_chain: SecuredLinkedList,
) -> UpdateFacts {
    UpdateFacts {
        verifies: new.self_verify(),
        signed_by_section_key: new.sig.public_key.bytes@ == new.value.section_key(),
        chain_ends_in_key: spec_last(proof_chain) == new.value.section_key(),
        chain_verifies: chain_verified(proof_chain),
        root_trusted: trusted.contains(spec_root(proof_chain)),
        known: if !has_prefix(s, new.value.prefix) {
            Known::Nothing
        } else {
            let known = s[index_of_prefix(s, new.value.prefix)].value.section_key();
            if known == new.value.section_key() {
                Known::SameKey
            } else if chain_path(proof_chain, known, new.value.section_key()) is Some {
                Known::EarlierKey
            } else {
                Known::OtherKey
            }
        },
    }
}

/// What becomes of an update, given the entries, the keys that are trusted, and the chain that
/// comes with the new authority.
pub open spec fn spec_update_outcome(
    s: Seq<SignedSapView>,
    trusted: Seq<Seq<u8>>,
    new: SignedSapView,
    proof_chain: SecuredLinkedList,
) -> Result<bool, NodeError> {
    spec_update_decision(spec_update_facts(s, trusted, new, proof_chain))
}

/// Whether `found` is the authority responsible for the name: of the entries whose prefix the
/// name matches, the one with the longest prefix; or nothing where the name matches none.
pub open spec fn responsible_for(s: Seq<SignedSapView>, name: Name, found: Option<SapView>) -> bool {
    match found {
        Some(sap) => {
            &&& exists|i: int| 0 <= i < s.len() && (#[trigger] s[i]).value == sap
            &&& sap.prefix.spec_matches(&name)
            &&& forall|j: int|
                0 <= j < s.len() && (#[trigger] s[j]).value.prefix.spec_matches(&name)
                    ==> s[j].value.prefix@.len() <= sap.prefix@.len()
        },
        None => forall|j: int|
            0 <= j < s.len() ==> !(#[trigger] s[j]).value.prefix.spec_matches(&name),
    }
}

/// Whether the key is one of the list.
pub fn contains_key(keys: &Vec<PublicKey>, key: &PublicKey) -> (found: bool)
    ensures
        found == key_bytes(keys@).contains(key.bytes@),
{
    let mut i: usize = 0;
    while i < keys.len()
        invariant
            i <= keys.len(),
            forall|j: int| 0 <= j < i ==> (#[trigger] keys@[j]).bytes@ != key.bytes@,
        decreases keys.len() - i,
    {
        if keys[i].same(key) {
            assert(key_bytes(keys@)[i as int] == key.bytes@);
            return true;
        }
        i += 1;
    }
    assert forall|j: int| 0 <= j < key_bytes(keys@).len() implies key_bytes(keys@)[j]
        != key.bytes@ by {
        assert(keys@[j].bytes@ != key.bytes@);
    }
    false
}

impl NetworkPrefixMap {
    /// The key that all trust starts from.
    pub closed spec fn spec_genesis_key(&self) -> PublicKey {
        self.genesis_key
    }

    /// The entries, as plain values.
    pub closed spec fn spec_sections(&self) -> Seq<SignedSapView> {
        self.sections@.map_values(|s: SignedSap| s@)
    }

    /// Every entry is vouched for by its own section key, and no two have one prefix. Every
    /// map that the program holds is of this form.
    #[verifier::type_invariant]
    pub closed spec fn wf(&self) -> bool {
        all_authentic(self.spec_sections()) && distinct_prefixes(self.spec_sections())
    }

    /// What the invariant says, for code that holds a value of the type.
    pub proof fn lemma_wf(&self)
        requires
            self.wf(),
        ensures
            all_authentic(self.spec_sections()),
            distinct_prefixes(self.spec_sections()),
    {
    }

    /// The entries are no more than a machine can count.
    pub proof fn lemma_count(&self)
        ensures
            self.spec_sections().len() <= usize::MAX,
    {
        let _ = self.sections.len();
    }

    /// A map that knows of no section.
    pub fn new(genesis_key: PublicKey) -> (map: Self)
        ensures
            map.wf(),
            map.spec_genesis_key() == genesis_key,
            map.spec_sections() == Seq::<SignedSapView>::empty(),
    {
        let map = NetworkPrefixMap { genesis_key, sections: Vec::new() };
        assert(map.spec_sections() =~= Seq::<SignedSapView>::empty());
        map
    }

    /// The key that all trust starts from.
    pub fn genesis_key(&self) -> (key: PublicKey)
        ensures
            key == self.spec_genesis_key(),
    {
        self.genesis_key
    }

    /// A copy of the map.
    pub fn duplicate(&self) -> (copy: Self)
        ensures
            copy.wf(),
            copy.spec_genesis_key() == self.spec_genesis_key(),
            copy.spec_sections() == self.spec_sections(),
    {
        proof {
            use_type_invariant(self);
        }
        let mut sections: Vec<SignedSap> = Vec::new();
        let mut i: usize = 0;
        while i < self.sections.len()
            invariant
                i <= self.sections.len(),
                sections@.map_values(|s: SignedSap| s@) == self.spec_sections().take(i as int),
            decreases self.sections.len() - i,
        {
            let ghost before = sections@.map_values(|s: SignedSap| s@);
            sections.push(self.sections[i].clone());
            assert(sections@.map_values(|s: SignedSap| s@) =~= before.push(
                self.spec_sections()[i as int],
            ));
            assert(self.spec_sections().take(i + 1) =~= self.spec_sections().take(i as int).push(
                self.spec_sections()[i as int],
            ));
            i += 1;
        }
        assert(self.spec_sections().take(self.sections.len() as int) == self.spec_sections());
        NetworkPrefixMap { genesis_key: self.genesis_key, sections }
    }

    /// The map with the given genesis key and entries, if every entry is vouched for by its
    /// own section key and no two entries have one prefix.
    pub fn from_entries(genesis_key: PublicKey, entries: Vec<SignedSap>) -> (r: Option<Self>)
        ensures
            r is Some <==> all_authentic(entries@.map_values(|s: SignedSap| s@))
                && distinct_prefixes(entries@.map_values(|s: SignedSap| s@)),
            r matches Some(map) ==> map.wf() && map.spec_genesis_key() == genesis_key
                && map.spec_sections() == entries@.map_values(|s: SignedSap| s@),
    {
        let ghost views = entries@.map_values(|s: SignedSap| s@);
        let mut i: usize = 0;
        while i < entries.len()
            invariant
                i <= entries.len(),
                views == entries@.map_values(|s: SignedSap| s@),
                forall|k: int| 0 <= k < i ==> (#[trigger] views[k]).value.wf() && views[k].authentic(),
                forall|a: int, b: int|
                    0 <= a < b < i ==> (#[trigger] views[a]).value.prefix != (#[trigger] views[b]).value.prefix,
            decreases entries.len() - i,
        {
            let entry = &entries[i];
            proof {
                use_type_invariant(&entry.value);
                entry.value.lemma_wf();
                assert(views[i as int] == entry@);
            }
            if !entries[i].is_authentic() {
                assert(!views[i as int].authentic());
                return None;
            }
            let prefix = entries[i].prefix();
            let mut j: usize = 0;
            while j < i
                invariant
                    j <= i < entries.len(),
                    views == entries@.map_values(|s: SignedSap| s@),
                    prefix == views[i as int].value.prefix,
                    forall|a: int| 0 <= a < j ==> (#[trigger] views[a]).value.prefix != prefix,
                decreases i - j,
            {
                if entries[j].prefix().same(&prefix) {
                    assert(views[j as int].value.prefix == views[i as int].value.prefix);
                    return None;
                }
                j += 1;
            }
            i += 1;
        }
        Some(NetworkPrefixMap { genesis_key, sections: entries })
    }

    /// The map as bytes: the genesis key, the number of entries, and each entry with its
    /// signature.
    pub fn encode(&self) -> (bytes: Vec<u8>)
        ensures
            bytes@ == spec_encode_map(self.spec_genesis_key(), self.spec_sections()),
    {
        let mut out: Vec<u8> = Vec::new();
        out.extend_from_slice(self.genesis_key.bytes.as_slice());
        let count = u64_to_le_bytes(self.sections.len() as u64);
        out.extend_from_slice(count.as_slice());
        let ghost head = out@;
        let mut i: usize = 0;
        while i < self.sections.len()
            invariant
                i <= self.sections.len(),
                out@ == head + spec_encode_entries(self.spec_sections().take(i as int)),
            decreases self.sections.len() - i,
        {
            write_entry(&mut out, &self.sections[i]);
            proof {
                let next = self.spec_sections().take(i + 1);
                assert(next.drop_last() == self.spec_sections().take(i as int));
                assert(next.last() == self.spec_sections()[i as int]);
                assert(out@ =~= head + spec_encode_entries(next));
            }
            i += 1;
        }
        proof {
            assert(self.spec_sections().take(self.sections.len() as int) == self.spec_sections());
        }
        out
    }

    /// The map that the bytes spell out.
    ///
    /// Fails with `InvalidPayload` where the bytes are not those of a genesis key and of
    /// entries, each in its due form, and nothing else; and with
    /// `UntrustedSectionAuthProvider` where an entry is not vouched for by its own section key
    /// or two entries have one prefix. What is read is what `encode` writes as these bytes.
    pub fn decode(bytes: &[u8]) -> (r: Result<Self, NodeError>)
        ensures
            match r {
                Ok(map) => {
                    &&& map.wf()
                    &&& parse_map(bytes@) == Some((map.spec_genesis_key(), map.spec_sections()))
                    &&& spec_encode_map(map.spec_genesis_key(), map.spec_sections()) == bytes@
                },
                Err(e) => match parse_map(bytes@) {
                    None => e == NodeError::InvalidPayload,
                    Some((genesis_key, entries)) => e == NodeError::UntrustedSectionAuthProvider
                        && !(all_authentic(entries) && distinct_prefixes(entries)),
                },
            },
    {
        let mut key: [u8; 48] = [0u8; 48];
        let q = match read_array::<48>(bytes, 0, &mut key) {
            Some(q) => q,
            None => {
                return Err(NodeError::InvalidPayload);
            },
        };
        let (count, start) = match read_u64(bytes, q) {
            Some(found) => found,
            None => {
                return Err(NodeError::InvalidPayload);
            },
        };
        let mut entries: Vec<SignedSap> = Vec::new();
        let mut at: usize = start;
        let mut i: u64 = 0;
        while i < count
            invariant
                i <= count,
                start <= bytes@.len(),
                parse_array::<48>(bytes@, 0) == Some((key, q as int)),
                parse_u64(bytes@, q as int) == Some((count, start as int)),
                parse_entries(bytes@, start as int, i as nat) == Some(
                    (entries@.map_values(|s: SignedSap| s@), at as int),
                ),
            decreases count - i,
        {
            match read_entry(bytes, at) {
                Some((entry, next)) => {
                    let ghost before = entries@.map_values(|s: SignedSap| s@);
                    let ghost view = entry@;
                    entries.push(entry);
                    assert(entries@.map_values(|s: SignedSap| s@) =~= before.push(view));
                    at = next;
                },
                None => {
                    proof {
                        lemma_entries_none(bytes@, start as int, (i + 1) as nat, count as nat);
                    }
                    return Err(NodeError::InvalidPayload);
                },
            }
            i += 1;
        }
        if at != bytes.len() {
            return Err(NodeError::InvalidPayload);
        }
        proof {
            lemma_map_read(bytes@);
        }
        match NetworkPrefixMap::from_entries(PublicKey { bytes: key }, entries) {
            Some(map) => Ok(map),
            None => Err(NodeError::UntrustedSectionAuthProvider),
        }
    }

    /// The number of entries.
    pub fn len(&self) -> (n: usize)
        ensures
            n == self.spec_sections().len(),
    {
        self.sections.len()
    }

    /// The entry at a place.
    pub fn section(&self, i: usize) -> (entry: &SignedSap)
        requires
            i < self.spec_sections().len(),
        ensures
            entry@ == self.spec_sections()[i as int],
    {
        &self.sections[i]
    }

    fn find(&self, prefix: &Prefix) -> (r: Option<usize>)
        ensures
            match r {
                Some(i) => i < self.spec_sections().len() && self.spec_sections()[i as int].value.prefix
                    == *prefix,
                None => !has_prefix(self.spec_sections(), *prefix),
            },
    {
        let mut i: usize = 0;
        while i < self.sections.len()
            invariant
                i <= self.sections.len(),
                forall|k: int|
                    0 <= k < i ==> (#[trigger] self.spec_sections()[k]).value.prefix != *prefix,
            decreases self.sections.len() - i,
        {
            if self.sections[i].value.prefix().same(prefix) {
                return Some(i);
            }
            i += 1;
        }
        None
    }

    /// The entry for the prefix.
    pub fn get_signed(&self, prefix: &Prefix) -> (r: Option<SignedSap>)
        ensures
            match r {
                Some(entry) => self.spec_sections().contains(entry@) && entry@.value.prefix
                    == *prefix && entry@.authentic(),
                None => !has_prefix(self.spec_sections(), *prefix),
            },
    {
        proof {
            use_type_invariant(self);
        }
        match self.find(prefix) {
            Some(i) => {
                let entry = self.sections[i].clone();
                assert(self.spec_sections()[i as int] == entry@);
                Some(entry)
            },
            None => None,
        }
    }

    /// The authority of the section that is responsible for the name: of the entries whose
    /// prefix the name matches, the one with the longest prefix.
    pub fn section_by_name(&self, name: &Name) -> (r: Result<SectionAuthorityProvider, NodeError>)
        ensures
            match r {
                Ok(sap) => responsible_for(self.spec_sections(), *name, Some(sap@)),
                Err(e) => e == NodeError::NoMatchingSection && responsible_for(
                    self.spec_sections(),
                    *name,
                    None,
                ),
            },
    {
        let mut best: Option<usize> = None;
        let mut i: usize = 0;
        while i < self.sections.len()
            invariant
                i <= self.sections.len(),
                match best {
                    Some(b) => {
                        &&& b < i
                        &&& self.spec_sections()[b as int].value.prefix.spec_matches(name)
                        &&& forall|j: int|
                            0 <= j < i && (#[trigger] self.spec_sections()[j]).value.prefix.spec_matches(
                            name) ==> self.spec_sections()[j].value.prefix@.len()
                                <= self.spec_sections()[b as int].value.prefix@.len()
                    },
                    None => forall|j: int|
                        0 <= j < i ==> !(#[trigger] self.spec_sections()[j]).value.prefix.spec_matches(
                        name),
                },
            decreases self.sections.len() - i,
        {
            let prefix = self.sections[i].value.prefix();
            if prefix.matches(name) {
                let better = match best {
                    Some(b) => prefix.bit_count() > self.sections[b].value.prefix().bit_count(),
                    None => true,
                };
                if better {
                    best = Some(i);
                }
            }
            i += 1;
        }
        match best {
            Some(b) => {
                let sap = self.sections[b].value.clone();
                assert(self.spec_sections()[b as int].value == sap@);
                Ok(sap)
            },
            None => Err(NodeError::NoMatchingSection),
        }
    }

    /// The keys that the map vouches for: the genesis key and the key of each entry.
    pub fn known_keys(&self) -> (keys: Vec<PublicKey>)
        ensures
            key_bytes(keys@) == known_keys(self.spec_genesis_key(), self.spec_sections()),
    {
        let mut keys: Vec<PublicKey> = Vec::new();
        keys.push(self.genesis_key);
        let mut i: usize = 0;
        while i < self.sections.len()
            invariant
                i <= self.sections.len(),
                keys@.len() == i + 1,
                keys@[0] == self.genesis_key,
                forall|k: int|
                    0 <= k < i ==> (#[trigger] keys@[k + 1]) == self.spec_sections()[k].sig.public_key,
            decreases self.sections.len() - i,
        {
            keys.push(self.sections[i].sig.public_key);
            i += 1;
        }
        assert(key_bytes(keys@) =~= known_keys(self.spec_genesis_key(), self.spec_sections())) by {
            let kb = key_bytes(keys@);
            let kk = known_keys(self.spec_genesis_key(), self.spec_sections());
            assert(kb.len() == kk.len());
            assert forall|j: int| 0 <= j < kb.len() implies kb[j] == kk[j] by {
                if j > 0 {
                    assert(keys@[(j - 1) + 1] == self.spec_sections()[j - 1].sig.public_key);
                }
            }
        }
        keys
    }

    /// Takes in a signed authority that comes with a chain of keys, trusting the genesis key
    /// and the keys of the entries. Says whether the authority was stored.
    pub fn update(&mut self, signed_sap: SignedSap, proof_chain: &SecuredLinkedList) -> (r: Result<
        bool,
        NodeError,
    >)
        ensures
            final(self).wf(),
            final(self).spec_genesis_key() == old(self).spec_genesis_key(),
            r == spec_update_outcome(
                old(self).spec_sections(),
                known_keys(old(self).spec_genesis_key(), old(self).spec_sections()),
                signed_sap@,
                *proof_chain,
            ),
            final(self).spec_sections() == (if r == Ok::<bool, NodeError>(true) {
                put_section(old(self).spec_sections(), signed_sap@)
            } else {
                old(self).spec_sections()
            }),
    {
        let trusted = self.known_keys();
        self.update_trusting(signed_sap, proof_chain, &trusted)
    }

    /// Takes in a signed authority that comes with a chain of keys, trusting the keys of the
    /// given section chain. Says whether the authority was stored.
    pub fn verify_with_chain_and_update(
        &mut self,
        signed_sap: SignedSap,
        proof_chain: &SecuredLinkedList,
        section_chain: &SecuredLinkedList,
    ) -> (r: Result<bool, NodeError>)
        ensures
            final(self).wf(),
            final(self).spec_genesis_key() == old(self).spec_genesis_key(),
            r == spec_update_outcome(
                old(self).spec_sections(),
                chain_keys(*section_chain),
                signed_sap@,
                *proof_chain,
            ),
            final(self).spec_sections() == (if r == Ok::<bool, NodeError>(true) {
                put_section(old(self).spec_sections(), signed_sap@)
            } else {
                old(self).spec_sections()
            }),
    {
        let trusted = chain_key_list(section_chain);
        assert(key_bytes(trusted@) =~= chain_keys(*section_chain));
        self.update_trusting(signed_sap, proof_chain, &trusted)
    }

    /// Takes in a signed authority that comes with a chain of keys, trusting the given keys.
    /// Says whether the authority was stored.
    pub fn update_trusting(
        &mut self,
        signed_sap: SignedSap,
        proof_chain: &SecuredLinkedList,
        trusted: &Vec<PublicKey>,
    ) -> (r: Result<bool, NodeError>)
        ensures
            final(self).wf(),
            final(self).spec_genesis_key() == old(self).spec_genesis_key(),
            r == spec_update_outcome(
                old(self).spec_sections(),
                key_bytes(trusted@),
                signed_sap@,
                *proof_chain,
            ),
            final(self).spec_sections() == (if r == Ok::<bool, NodeError>(true) {
                put_section(old(self).spec_sections(), signed_sap@)
            } else {
                old(self).spec_sections()
            }),
    {
        proof {
            use_type_invariant(&*self);
            use_type_invariant(&signed_sap.value);
            signed_sap.value.lemma_wf();
        }
        let ghost before = self.spec_sections();
        let verifies = signed_sap.self_verify();
        let section_key = signed_sap.section_key();
        let signed_by_section_key = verifies && signed_sap.sig.public_key.same(&section_key);
        let chain_ends_in_key = signed_by_section_key && chain_last_key(proof_chain).same(
            &section_key,
        );
        let chain_verifies = chain_ends_in_key && chain_self_verify(proof_chain);
        let root_trusted = chain_verifies && contains_key(trusted, &chain_root_key(proof_chain));
        let prefix = signed_sap.prefix();
        let found = if root_trusted {
            self.find(&prefix)
        } else {
            None
        };
        let known = match found {
            None => Known::Nothing,
            Some(i) => {
                proof {
                    assert(before[i as int].value.prefix == prefix);
                    let k = index_of_prefix(before, prefix);
                    if k != i {
                        if k < i {
                            assert(before[k].value.prefix != before[i as int].value.prefix);
                        } else {
                            assert(before[i as int].value.prefix != before[k].value.prefix);
                        }
                    }
                }
                let known = self.sections[i].section_key();
                if known.same(&section_key) {
                    Known::SameKey
                } else {
                    match chain_get_proof_chain(proof_chain, &known, &section_key) {
                        Ok(_) => Known::EarlierKey,
                        Err(_) => Known::OtherKey,
                    }
                }
            },
        };
        let decision = update_decision(
            UpdateFacts {
                verifies,
                signed_by_section_key,
                chain_ends_in_key,
                chain_verifies,
                root_trusted,
                known,
            },
        );
        let store = match decision {
            Ok(store) => store,
            Err(_) => false,
        };
        if store {
            let mut sections: Vec<SignedSap> = Vec::new();
            core::mem::swap(&mut self.sections, &mut sections);
            let ghost new = signed_sap@;
            match found {
                None => {
                    sections.push(signed_sap);
                    proof {
                        let after = sections@.map_values(|s: SignedSap| s@);
                        assert(after =~= before.push(new));
                        assert(distinct_prefixes(after));
                    }
                },
                Some(i) => {
                    sections[i] = signed_sap;
                    proof {
                        let after = sections@.map_values(|s: SignedSap| s@);
                        assert(after =~= before.update(i as int, new));
                        assert forall|a: int, b: int| 0 <= a < b < after.len() implies (#[trigger] after[a]).value.prefix
                            != (#[trigger] after[b]).value.prefix by {
                            assert(before[a].value.prefix != before[b].value.prefix);
                        }
                    }
                },
            }
            self.sections = sections;
        }
        decision
    }

    /// The entry closest to the name: of the entries whose prefix is not the excluded one, the
    /// one whose prefix shares the most leading bits with the name. Of several such, the one
    /// with the sibling of the excluded prefix is taken, or else the first.
    pub fn closest_or_opposite(&self, name: &Name, excluded: Option<&Prefix>) -> (r: Option<
        SignedSap,
    >)
        ensures
            match r {
                Some(entry) => {
                    let s = self.spec_sections();
                    let k = spec_closest(s, *name, spec_deref(excluded));
                    &&& 0 <= k < s.len() && s[k] == entry@
                    &&& spec_eligible(s, spec_deref(excluded), k)
                    &&& forall|j: int|
                        0 <= j < s.len() && spec_eligible(s, spec_deref(excluded), j) ==> (#[trigger] s[j]).value.prefix.spec_common_prefix(
                        name) <= entry@.value.prefix.spec_common_prefix(name)
                },
                None => {
                    let s = self.spec_sections();
                    &&& spec_closest(s, *name, spec_deref(excluded)) < 0
                    &&& forall|j: int| 0 <= j < s.len() ==> !spec_eligible(s, spec_deref(excluded), j)
                },
            },
    {
        let sibling: Option<Prefix> = match excluded {
            Some(e) => Some(e.sibling()),
            None => None,
        };
        let ghost s = self.spec_sections();
        let ghost ex = spec_deref(excluded);
        let mut best: Option<usize> = None;
        let mut i: usize = 0;
        while i < self.sections.len()
            invariant
                i <= self.sections.len(),
                s == self.spec_sections(),
                ex == spec_deref(excluded),
                sibling == spec_sibling(ex),
                match best {
                    Some(b) => {
                        &&& b < i && b == spec_closest_upto(s, *name, ex, i as int)
                        &&& spec_eligible(s, ex, b as int)
                        &&& forall|j: int|
                            0 <= j < i && spec_eligible(s, ex, j) ==> (#[trigger] s[j]).value.prefix.spec_common_prefix(
                            name) <= s[b as int].value.prefix.spec_common_prefix(name)
                    },
                    None => {
                        &&& spec_closest_upto(s, *name, ex, i as int) < 0
                        &&& forall|j: int| 0 <= j < i ==> !spec_eligible(s, ex, j)
                    },
                },
            decreases self.sections.len() - i,
        {
            let prefix = self.sections[i].value.prefix();
            let candidate = match excluded {
                Some(e) => !prefix.same(e),
                None => true,
            };
            if candidate {
                let better = match best {
                    Some(b) => {
                        let shared = prefix.common_prefix(name);
                        let best_prefix = self.sections[b].value.prefix();
                        let best_shared = best_prefix.common_prefix(name);
                        shared > best_shared || (shared == best_shared && match &sibling {
                            Some(sib) => prefix.same(sib) && !best_prefix.same(sib),
                            None => false,
                        })
                    },
                    None => true,
                };
                if better {
                    best = Some(i);
                }
            }
            i += 1;
        }
        match best {
            Some(b) => {
                let entry = self.sections[b].clone();
                assert(s[b as int] == entry@);
                Some(entry)
            },
            None => None,
        }
    }
}

/// Every authority that a prefix map holds verifies under the key that comes with its
/// signature, and that key is the one it names as its section's.
pub proof fn lemma_stored_authority_verifies(map: NetworkPrefixMap, i: int)
    requires
        map.wf(),
        0 <= i < map.spec_sections().len(),
    ensures
        map.spec_sections()[i].self_verify(),
        map.spec_sections()[i].sig.public_key.bytes@ == map.spec_sections()[i].value.section_key(),
{
    map.lemma_wf();
}

/// A prefix map that is written and read again is the same map: `decode` finds, in the
/// bytes that `encode` writes, the genesis key and the entries that were written, and they
/// stand its checks.
pub proof fn lemma_written_map_is_read(map: NetworkPrefixMap)
    requires
        map.wf(),
    ensures
        parse_map(spec_encode_map(map.spec_genesis_key(), map.spec_sections())) == Some(
            (map.spec_genesis_key(), map.spec_sections()),
        ),
        all_authentic(map.spec_sections()),
        distinct_prefixes(map.spec_sections()),
{
    map.lemma_wf();
    map.lemma_count();
    lemma_map_written(map.spec_genesis_key(), map.spec_sections());
}

/// Bytes that are read as a prefix map are the bytes that this map is written as.
pub proof fn lemma_read_map_is_written(bytes: Seq<u8>)
    ensures
        parse_map(bytes) matches Some((genesis_key, entries)) ==> spec_encode_map(
            genesis_key,
            entries,
        ) == bytes,
{
    lemma_map_read(bytes);
}

/// The prefix behind an optional reference.
pub open spec fn spec_deref(p: Option<&Prefix>) -> Option<Prefix> {
    match p {
        Some(p) => Some(*p),
        None => None,
    }
}

/// The sibling of an optional prefix.
pub open spec fn spec_sibling(p: Option<Prefix>) -> Option<Prefix> {
    match p {
        Some(p) => Some(p.spec_sibling()),
        None => None,
    }
}

/// Whether the entry at `i` may be chosen: its prefix is not the excluded one.
pub open spec fn spec_eligible(s: Seq<SignedSapView>, excluded: Option<Prefix>, i: int) -> bool {
    excluded != Some(s[i].value.prefix)
}

/// Whether the entry at `i` is to be preferred to the entry at `b`, both being eligible: it
/// shares more leading bits with the name, or as many while it alone has the preferred prefix.
pub open spec fn spec_better(
    s: Seq<SignedSapView>,
    name: Name,
    preferred: Option<Prefix>,
    i: int,
    b: int,
) -> bool {
    let shared = s[i].value.prefix.spec_common_prefix(&name);
    let best_shared = s[b].value.prefix.spec_common_prefix(&name);
    shared > best_shared || (shared == best_shared && preferred == Some(s[i].value.prefix)
        && preferred != Some(s[b].value.prefix))
}

/// The place of the entry closest to the name among the first `upto` entries, or -1 where none
/// is eligible.
pub open spec fn spec_closest_upto(
    s: Seq<SignedSapView>,
    name: Name,
    excluded: Option<Prefix>,
    upto: int,
) -> int
    decreases upto,
{
    if upto <= 0 {
        -1
    } else {
        let before = spec_closest_upto(s, name, excluded, upto - 1);
        let i = upto - 1;
        if !spec_eligible(s, excluded, i) {
            before
        } else if before < 0 || spec_better(s, name, spec_sibling(excluded), i, before) {
            i
        } else {
            before
        }
    }
}

/// The place of the entry closest to the name, or -1 where none is eligible.
pub open spec fn spec_closest(s: Seq<SignedSapView>, name: Name, excluded: Option<Prefix>) -> int {
    spec_closest_upto(s, name, excluded, s.len() as int)
}

} // verus!
