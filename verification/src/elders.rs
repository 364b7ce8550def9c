//! Who should be the elders of a section: the oldest members, the current elders before
//! others of their age.

use vstd::prelude::*;
use crate::name::{Name, Prefix};
use crate::node_state::AuthedNodeState;
use crate::sap::{copy_peers, has_name, insert_peer, last_of_each_name, peers_sorted, Peer, SectionAuthorityProvider};
use crate::seq_util::{
    lemma_filter_push, select_lowest, spec_bytes_lt,
};

verus! {

/// The peers that are proposed as the elders of the section with the prefix, in the order of
/// their names and each name once.
#[derive(Debug)]
pub struct ElderCandidates {
    prefix: Prefix,
    elders: Vec<Peer>,
}

impl ElderCandidates {
    /// The prefix of the section.
    pub closed spec fn spec_prefix(&self) -> Prefix {
        self.prefix
    }

    /// The elders, in the order of their names.
    pub closed spec fn spec_elders(&self) -> Seq<Peer> {
        self.elders@
    }

    /// The peers stand in the strict order of their names. Every value of the type that the
    /// program holds is of this form.
    #[verifier::type_invariant]
    pub closed spec fn wf(&self) -> bool {
        self.prefix.wf() && peers_sorted(self.elders@)
    }

    /// The candidates for the section with the prefix. Of several peers with one name the
    /// last counts.
    pub fn new(prefix: Prefix, elders: Vec<Peer>) -> (candidates: Self)
        ensures
            candidates.spec_prefix() == prefix,
            peers_sorted(candidates.spec_elders()),
            forall|q: Peer| candidates.spec_elders().contains(q) <==> last_of_each_name(elders@, q),
    {
        // the same rule as for the elders of an authority
        let sorted = sorted_peers(&elders);
        proof {
            use_type_invariant(&prefix);
        }
        ElderCandidates { prefix, elders: sorted }
    }

    /// The prefix of the section.
    pub fn prefix(&self) -> (prefix: Prefix)
        ensures
            prefix == self.spec_prefix(),
    {
        self.prefix
    }

    /// The candidates, in the order of their names.
    pub fn elders(&self) -> (elders: Vec<Peer>)
        ensures
            elders@ == self.spec_elders(),
    {
        copy_peers(&self.elders)
    }

    /// The number of candidates.
    pub fn len(&self) -> (n: usize)
        ensures
            n == self.spec_elders().len(),
    {
        self.elders.len()
    }
}

/// The peers in the order of their names; of several with one name, the last.
pub fn sorted_peers(peers: &Vec<Peer>) -> (sorted: Vec<Peer>)
    ensures
        peers_sorted(sorted@),
        forall|q: Peer| sorted@.contains(q) <==> last_of_each_name(peers@, q),
{
    let mut sorted: Vec<Peer> = Vec::new();
    let mut i: usize = 0;
    while i < peers.len()
        invariant
            i <= peers.len(),
            peers_sorted(sorted@),
            forall|q: Peer| sorted@.contains(q) <==> last_of_each_name(peers@.take(i as int), q),
        decreases peers.len() - i,
    {
        let ghost before = sorted@;
        let peer = peers[i];
        insert_peer(&mut sorted, peer);
        proof {
            let seen = peers@.take(i as int);
            let next = peers@.take(i + 1);
            assert(next == seen.push(peer));
            assert forall|q: Peer| sorted@.contains(q) <==> last_of_each_name(next, q) by {
                if last_of_each_name(next, q) {
                    let k = choose|k: int|
                        0 <= k < next.len() && #[trigger] next[k] == q && forall|j: int|
                            k < j < next.len() ==> (#[trigger] next[j]).name != q.name;
                    if k < i {
                        assert(seen[k] == q);
                        assert(next[i as int].name != q.name);
                        assert forall|j: int| k < j < seen.len() implies (#[trigger] seen[j]).name
                            != q.name by {
                            assert(next[j] == seen[j]);
                        }
                        assert(last_of_each_name(seen, q));
                    }
                }
                if sorted@.contains(q) {
                    if q == peer {
                        assert(next[i as int] == q);
                    } else {
                        assert(before.contains(q) && q.name != peer.name);
                        let k = choose|k: int|
                            0 <= k < seen.len() && #[trigger] seen[k] == q && forall|j: int|
                                k < j < seen.len() ==> (#[trigger] seen[j]).name != q.name;
                        assert(next[k] == q);
                        assert forall|j: int| k < j < next.len() implies (#[trigger] next[j]).name
                            != q.name by {
                            if j < i {
                                assert(seen[j] == next[j]);
                            }
                        }
                    }
                }
            }
        }
        i += 1;
    }
    proof {
        assert(peers@.take(peers.len() as int) == peers@);
    }
    sorted
}

/// What a member is ranked by when elders are chosen; the member with the lower key is
/// preferred. The key puts age first, the higher the better; then whether the member is an
/// elder now; then the signature under its state, which nobody can pick; then the name.
pub open spec fn spec_rank_key(state: AuthedNodeState, current: Seq<Peer>) -> Seq<u8> {
    seq![
        (255 - state.value.name.bytes[31]) as u8,
        if has_name(current, state.value.name) {
            0u8
        } else {
            1u8
        },
    ] + state.sig.signature.bytes@ + state.value.name.bytes@
}

/// Whether a member may be chosen: it is not left out, and its name lies in the prefix
/// where one is given.
pub open spec fn spec_eligible(state: AuthedNodeState, excluded: Seq<Name>, prefix: Option<Prefix>) -> bool {
    &&& !excluded.contains(state.value.name)
    &&& match prefix {
        Some(p) => p.spec_matches(&state.value.name),
        None => true,
    }
}

/// Whether `chosen` are the members to be elders: the `elder_size` eligible members with the
/// lowest keys, or all eligible members where there are fewer, the lowest key first.
pub open spec fn spec_is_choice(
    members: Seq<AuthedNodeState>,
    elder_size: int,
    current: Seq<Peer>,
    excluded: Seq<Name>,
    prefix: Option<Prefix>,
    chosen: Seq<AuthedNodeState>,
) -> bool {
    let eligible = members.filter(|s: AuthedNodeState| spec_eligible(s, excluded, prefix));
    &&& chosen.len() == (if elder_size < eligible.len() {
        elder_size
    } else {
        eligible.len() as int
    })
    &&& forall|i: int| 0 <= i < chosen.len() ==> eligible.contains(#[trigger] chosen[i])
    &&& forall|i: int, j: int|
        0 <= i < j < chosen.len() ==> spec_bytes_lt(
            spec_rank_key(#[trigger] chosen[i], current),
            spec_rank_key(#[trigger] chosen[j], current),
        )
    &&& forall|s: AuthedNodeState, i: int|
        eligible.contains(s) && !chosen.contains(s) && 0 <= i < chosen.len() ==> spec_bytes_lt(
            spec_rank_key(#[trigger] chosen[i], current),
            #[trigger] spec_rank_key(s, current),
        )
}

/// The key that a member is ranked by.
pub fn rank_key(state: &AuthedNodeState, current: &SectionAuthorityProvider) -> (key: Vec<u8>)
    ensures
        key@ == spec_rank_key(*state, current@.elders),
        key@.len() == 130,
{
    let mut key: Vec<u8> = Vec::new();
    key.push(255 - state.value.name.age());
    key.push(if current.contains_elder(&state.value.name) { 0u8 } else { 1u8 });
    key.extend_from_slice(state.sig.signature.bytes.as_slice());
    key.extend_from_slice(state.value.name.bytes.as_slice());
    assert(key@ =~= spec_rank_key(*state, current@.elders));
    key
}

/// A key has 130 bytes.
pub proof fn lemma_key_len(state: AuthedNodeState, current: Seq<Peer>)
    ensures
        spec_rank_key(state, current).len() == 130,
{
}

/// Members with different names have different keys.
pub proof fn lemma_keys_differ(a: AuthedNodeState, b: AuthedNodeState, current: Seq<Peer>)
    requires
        a.value.name != b.value.name,
    ensures
        spec_rank_key(a, current) != spec_rank_key(b, current),
        spec_rank_key(a, current).len() == 130,
{
    let ka = spec_rank_key(a, current);
    let kb = spec_rank_key(b, current);
    if ka == kb {
        assert forall|j: int| 0 <= j < 32 implies a.value.name.bytes[j] == b.value.name.bytes[j] by {
            assert(ka[98 + j] == a.value.name.bytes@[j]);
            assert(kb[98 + j] == b.value.name.bytes@[j]);
        }
        assert(a.value.name.bytes =~= b.value.name.bytes);
    }
}

/// Whether one of the names is the given one.
fn listed(names: &Vec<Name>, name: &Name) -> (found: bool)
    ensures
        found == names@.contains(*name),
{
    let mut i: usize = 0;
    while i < names.len()
        invariant
            i <= names.len(),
            forall|k: int| 0 <= k < i ==> names@[k] != *name,
        decreases names.len() - i,
    {
        if names[i].same(name) {
            return true;
        }
        i += 1;
    }
    false
}

/// Chooses the members to be elders: the `elder_size` eligible members that rank best, or
/// all eligible members where there are fewer, the best first. The members must be given in
/// the strict order of their names.
pub fn elder_candidates(
    members: &Vec<AuthedNodeState>,
    elder_size: usize,
    current: &SectionAuthorityProvider,
    excluded: &Vec<Name>,
    prefix: Option<&Prefix>,
) -> (chosen: Vec<AuthedNodeState>)
    requires
        forall|i: int, j: int|
            0 <= i < j < members@.len() ==> (#[trigger] members@[i]).value.name.spec_lt(
                &(#[trigger] members@[j]).value.name,
            ),
    ensures
        spec_is_choice(
            members@,
            elder_size as int,
            current@.elders,
            excluded@,
            crate::prefix_map::spec_deref(prefix),
            chosen@,
        ),
{
    let ghost elders = current@.elders;
    let ghost wanted = crate::prefix_map::spec_deref(prefix);
    let ghost keep = |s: AuthedNodeState| spec_eligible(s, excluded@, wanted);
    let mut pool: Vec<AuthedNodeState> = Vec::new();
    let mut keys: Vec<Vec<u8>> = Vec::new();
    let mut i: usize = 0;
    proof {
        assert(members@.take(0).filter(keep) =~= Seq::<AuthedNodeState>::empty()) by {
            reveal(Seq::filter);
        }
    }
    while i < members.len()
        invariant
            i <= members.len(),
            elders == current@.elders,
            wanted == crate::prefix_map::spec_deref(prefix),
            keep == |s: AuthedNodeState| spec_eligible(s, excluded@, wanted),
            forall|a: int, b: int|
                0 <= a < b < members@.len() ==> (#[trigger] members@[a]).value.name.spec_lt(
                    &(#[trigger] members@[b]).value.name,
                ),
            pool@ == members@.take(i as int).filter(keep),
            keys@.len() == pool@.len(),
            forall|j: int|
                0 <= j < pool@.len() ==> (#[trigger] keys@[j])@ == spec_rank_key(pool@[j], elders),
            forall|a: int, b: int|
                0 <= a < pool@.len() && i <= b < members@.len() ==> (#[trigger] pool@[a]).value.name.spec_lt(
                    &(#[trigger] members@[b]).value.name,
                ),
            forall|a: int, b: int|
                0 <= a < b < pool@.len() ==> (#[trigger] pool@[a]).value.name != (#[trigger] pool@[b]).value.name,
        decreases members.len() - i,
    {
        let state = members[i];
        proof {
            assert(members@.take(i + 1) == members@.take(i as int).push(state));
            lemma_filter_push(members@.take(i as int), state, keep);
        }
        let fits = match prefix {
            Some(p) => p.matches(&state.value.name),
            None => true,
        };
        if fits && !listed(excluded, &state.value.name) {
            let ghost before = pool@;
            pool.push(state);
            keys.push(rank_key(&state, current));
            proof {
                assert forall|a: int, b: int|
                    0 <= a < pool@.len() && i + 1 <= b < members@.len() implies (#[trigger] pool@[a]).value.name.spec_lt(
                    &(#[trigger] members@[b]).value.name,
                ) by {
                    if a == pool@.len() - 1 {
                        assert(members@[i as int].value.name.spec_lt(&members@[b].value.name));
                    } else {
                        assert(before[a].value.name.spec_lt(&members@[b].value.name));
                    }
                }
                assert forall|a: int, b: int| 0 <= a < b < pool@.len() implies (#[trigger] pool@[a]).value.name
                    != (#[trigger] pool@[b]).value.name by {
                    if b == pool@.len() - 1 {
                        assert(before[a].value.name.spec_lt(&members@[i as int].value.name));
                        crate::name::lemma_lt_total(state.value.name, state.value.name);
                    } else {
                        assert(before[a].value.name != before[b].value.name);
                    }
                }
            }
        }
        i += 1;
    }
    proof {
        assert(members@.take(members.len() as int) == members@);
    }
    let ghost all = keys@.map_values(|key: Vec<u8>| key@);
    proof {
        assert forall|a: int, b: int| 0 <= a < keys@.len() && 0 <= b < keys@.len() implies (#[trigger] keys@[a])@.len()
            == (#[trigger] keys@[b])@.len() by {
            lemma_key_len(pool@[a], elders);
            lemma_key_len(pool@[b], elders);
        }
        assert forall|a: int, b: int| 0 <= a < b < keys@.len() implies (#[trigger] keys@[a])@
            != (#[trigger] keys@[b])@ by {
            assert(pool@[a].value.name != pool@[b].value.name);
            lemma_keys_differ(pool@[a], pool@[b], elders);
        }
    }
    let picked = select_lowest(&keys, elder_size);
    let mut chosen: Vec<AuthedNodeState> = Vec::new();
    let mut c: usize = 0;
    while c < picked.len()
        invariant
            c <= picked@.len(),
            chosen@.len() == c,
            forall|i: int| 0 <= i < picked@.len() ==> (#[trigger] picked@[i]) < pool@.len(),
            forall|i: int| 0 <= i < c ==> #[trigger] chosen@[i] == pool@[picked@[i] as int],
        decreases picked@.len() - c,
    {
        chosen.push(pool[picked[c]]);
        c += 1;
    }
    proof {
        assert forall|t: int| 0 <= t < pool@.len() implies #[trigger] all[t] == spec_rank_key(
            pool@[t],
            elders,
        ) by {
            assert(keys@[t]@ == spec_rank_key(pool@[t], elders));
        }
        assert forall|i: int| 0 <= i < chosen@.len() implies pool@.contains(#[trigger] chosen@[i]) by {
            assert(pool@[picked@[i] as int] == chosen@[i]);
        }
        assert forall|i: int, j: int| 0 <= i < j < chosen@.len() implies spec_bytes_lt(
            spec_rank_key(#[trigger] chosen@[i], elders),
            spec_rank_key(#[trigger] chosen@[j], elders),
        ) by {
            assert(spec_bytes_lt(all[picked@[i] as int], all[picked@[j] as int]));
        }
        assert forall|s: AuthedNodeState, i: int|
            pool@.contains(s) && !chosen@.contains(s) && 0 <= i < chosen@.len() implies spec_bytes_lt(
            spec_rank_key(#[trigger] chosen@[i], elders),
            #[trigger] spec_rank_key(s, elders),
        ) by {
            let t = choose|t: int| 0 <= t < pool@.len() && pool@[t] == s;
            if picked@.contains(t as usize) {
                let k = choose|k: int| 0 <= k < picked@.len() && picked@[k] == t as usize;
                assert(chosen@[k] == s);
            }
            assert(spec_bytes_lt(all[picked@[i] as int], all[t]));
        }
    }
    chosen
}

/// The peers of the states, in their order.
pub open spec fn spec_peers_of(states: Seq<AuthedNodeState>) -> Seq<Peer> {
    states.map_values(|s: AuthedNodeState| Peer { name: s.value.name, addr: s.value.addr })
}

/// The peers of the states, in their order.
pub fn peers_of(states: &Vec<AuthedNodeState>) -> (peers: Vec<Peer>)
    ensures
        peers@ == spec_peers_of(states@),
{
    let mut peers: Vec<Peer> = Vec::new();
    let mut i: usize = 0;
    while i < states.len()
        invariant
            i <= states.len(),
            peers@ == states@.take(i as int).map_values(
                |s: AuthedNodeState| Peer { name: s.value.name, addr: s.value.addr },
            ),
        decreases states.len() - i,
    {
        peers.push(states[i].value.peer());
        proof {
            let f = |s: AuthedNodeState| Peer { name: s.value.name, addr: s.value.addr };
            assert(states@.take(i + 1) == states@.take(i as int).push(states@[i as int]));
            assert(states@.take(i + 1).map_values(f) =~= states@.take(i as int).map_values(f).push(
                f(states@[i as int]),
            ));
        }
        i += 1;
    }
    assert(states@.take(states.len() as int) == states@);
    peers
}

/// How many of a number make a supermajority: more than two thirds.
pub fn supermajority(group_size: usize) -> (n: usize)
    ensures
        n == 1 + group_size * 2 / 3,
{
    let twice: u128 = group_size as u128 * 2;
    1 + (twice / 3) as usize
}

} // verus!
