//! The members of a section, and those who were members once.

use vstd::prelude::*;
use secured_linked_list::SecuredLinkedList;
use crate::chain::{chain_has_key, spec_has_key};
use crate::name::{Name, Prefix};
use crate::name_map::{has_key, index_of, lemma_entry, map_filter, NameMap};
use crate::node_state::{AuthedNodeState, MembershipState, NodeState};

verus! {

/// The members of a section by name, and an archive of those who left or were moved away.
#[derive(Debug)]
pub struct SectionPeers {
    members: NameMap<AuthedNodeState>,
    archive: NameMap<AuthedNodeState>,
}

/// Every state stands under its own name.
pub open spec fn keyed_by_name(m: Map<Name, AuthedNodeState>) -> bool {
    forall|n: Name| m.contains_key(n) ==> (#[trigger] m[n]).value.name == n
}

/// What an update makes of the members and the archive, and whether it changed anything.
///
/// A member that joins is added unless it is a member already or stands in the archive. A
/// member that leaves or is moved away goes from the members into the archive; so does the
/// state of a peer that was never seen as a member. What stands in the archive stays as it
/// is.
pub open spec fn spec_update(
    members: Map<Name, AuthedNodeState>,
    archive: Map<Name, AuthedNodeState>,
    new_state: AuthedNodeState,
) -> (Map<Name, AuthedNodeState>, Map<Name, AuthedNodeState>, bool) {
    let name = new_state.value.name;
    if archive.contains_key(name) {
        (members, archive, false)
    } else if new_state.value.state == MembershipState::Joined {
        if members.contains_key(name) {
            (members, archive, false)
        } else {
            (members.insert(name, new_state), archive, true)
        }
    } else {
        (members.remove(name), archive.insert(name, new_state), true)
    }
}

/// The list holds the states of the map and no others, in the strict order of the names.
pub open spec fn lists_states(list: Seq<AuthedNodeState>, map: Map<Name, AuthedNodeState>) -> bool {
    &&& forall|i: int|
        0 <= i < list.len() ==> map.contains_key((#[trigger] list[i]).value.name)
            && map[list[i].value.name] == list[i]
    &&& forall|n: Name| map.contains_key(n) ==> list.contains(#[trigger] map[n])
    &&& forall|i: int, j: int|
        0 <= i < j < list.len() ==> (#[trigger] list[i]).value.name.spec_lt(
            &(#[trigger] list[j]).value.name,
        )
}

impl SectionPeers {
    /// The members by name.
    pub closed spec fn spec_members(&self) -> Map<Name, AuthedNodeState> {
        self.members@
    }

    /// The archive by name.
    pub closed spec fn spec_archive(&self) -> Map<Name, AuthedNodeState> {
        self.archive@
    }

    /// The number of members.
    pub closed spec fn spec_len(&self) -> nat {
        self.members.spec_len()
    }

    /// The members' states in the order of their names.
    pub closed spec fn spec_member_list(&self) -> Seq<AuthedNodeState> {
        self.members.spec_entries().map_values(|e: (Name, AuthedNodeState)| e.1)
    }

    /// Every state stands under its own name; the members have joined, the archived have not;
    /// nobody is both. Every value of the type that the program holds is of this form.
    #[verifier::type_invariant]
    pub closed spec fn wf(&self) -> bool {
        &&& self.members.wf()
        &&& self.archive.wf()
        &&& keyed_by_name(self.members@)
        &&& keyed_by_name(self.archive@)
        &&& forall|n: Name|
            self.members@.contains_key(n) ==> (#[trigger] self.members@[n]).value.state
                == MembershipState::Joined
        &&& forall|n: Name|
            self.archive@.contains_key(n) ==> (#[trigger] self.archive@[n]).value.state
                != MembershipState::Joined
        &&& forall|n: Name| self.members@.contains_key(n) ==> !self.archive@.contains_key(n)
    }

    /// What the invariant says, for code that holds a value of the type.
    pub proof fn lemma_wf(&self)
        requires
            self.wf(),
        ensures
            keyed_by_name(self.spec_members()),
            keyed_by_name(self.spec_archive()),
            forall|n: Name|
                self.spec_members().contains_key(n) ==> (#[trigger] self.spec_members()[n]).value.state
                    == MembershipState::Joined,
            forall|n: Name|
                self.spec_archive().contains_key(n) ==> (#[trigger] self.spec_archive()[n]).value.state
                    != MembershipState::Joined,
            forall|n: Name|
                self.spec_members().contains_key(n) ==> !self.spec_archive().contains_key(n),
    {
    }

    /// No members and an empty archive.
    pub fn new() -> (peers: Self)
        ensures
            peers.wf(),
            peers.spec_members() == Map::<Name, AuthedNodeState>::empty(),
            peers.spec_archive() == Map::<Name, AuthedNodeState>::empty(),
            peers.spec_len() == 0,
    {
        SectionPeers { members: NameMap::new(), archive: NameMap::new() }
    }

    /// Takes in a member's new state and says whether anything changed.
    pub fn update(&mut self, new_state: AuthedNodeState) -> (changed: bool)
        ensures
            final(self).wf(),
            (final(self).spec_members(), final(self).spec_archive(), changed) == spec_update(
                old(self).spec_members(),
                old(self).spec_archive(),
                new_state,
            ),
    {
        proof {
            use_type_invariant(&*self);
        }
        let name = new_state.value.name;
        if self.archive.contains(&name) {
            false
        } else if new_state.value.state.is_joined() {
            if self.members.contains(&name) {
                false
            } else {
                let mut members: NameMap<AuthedNodeState> = NameMap::new();
                core::mem::swap(&mut self.members, &mut members);
                let _ = members.insert(name, new_state);
                self.members = members;
                true
            }
        } else {
            let mut members: NameMap<AuthedNodeState> = NameMap::new();
            core::mem::swap(&mut self.members, &mut members);
            let _ = members.remove(&name);
            self.members = members;
            let mut archive: NameMap<AuthedNodeState> = NameMap::new();
            core::mem::swap(&mut self.archive, &mut archive);
            let _ = archive.insert(name, new_state);
            self.archive = archive;
            true
        }
    }

    /// Drops the members whose names the prefix does not match. The archive stays.
    pub fn retain(&mut self, prefix: &Prefix)
        ensures
            final(self).wf(),
            final(self).spec_members() == map_filter(
                old(self).spec_members(),
                |n: Name, s: AuthedNodeState| prefix.spec_matches(&n),
            ),
            final(self).spec_archive() == old(self).spec_archive(),
            final(self).spec_len() <= old(self).spec_len(),
    {
        proof {
            use_type_invariant(&*self);
        }
        let mut flags: Vec<bool> = Vec::new();
        let mut i: usize = 0;
        while i < self.members.len()
            invariant
                i <= self.members.spec_len(),
                flags@.len() == i,
                forall|k: int|
                    0 <= k < i ==> #[trigger] flags@[k] == prefix.spec_matches(
                        &self.members.spec_entries()[k].0,
                    ),
            decreases self.members.spec_len() - i,
        {
            let entry = self.members.entry(i);
            flags.push(prefix.matches(&entry.0));
            i += 1;
        }
        let kept = self.members.keep(&flags);
        proof {
            let keep = |n: Name, s: AuthedNodeState| prefix.spec_matches(&n);
            let entries = self.members.spec_entries();
            assert(kept@ =~= map_filter(self.members@, keep)) by {
                assert forall|n: Name|
                    kept@.contains_key(n) <==> self.members@.contains_key(n) && keep(
                        n,
                        self.members@[n],
                    ) by {
                    if has_key(entries, n) {
                        lemma_entry(entries, index_of(entries, n));
                    }
                }
            }
        }
        self.members = kept;
    }

    /// Drops the members whose states were signed with a key that the chain does not hold.
    /// The archive stays.
    pub fn prune_members(&mut self, chain: &SecuredLinkedList)
        ensures
            final(self).wf(),
            final(self).spec_archive() == old(self).spec_archive(),
            final(self).spec_len() <= old(self).spec_len(),
            final(self).spec_members() == map_filter(
                old(self).spec_members(),
                |n: Name, s: AuthedNodeState| spec_has_key(*chain, s.sig.public_key.bytes@),
            ),
    {
        proof {
            use_type_invariant(&*self);
        }
        let mut flags: Vec<bool> = Vec::new();
        let mut i: usize = 0;
        while i < self.members.len()
            invariant
                i <= self.members.spec_len(),
                flags@.len() == i,
                forall|k: int|
                    0 <= k < i ==> #[trigger] flags@[k] == spec_has_key(
                        *chain,
                        self.members.spec_entries()[k].1.sig.public_key.bytes@,
                    ),
            decreases self.members.spec_len() - i,
        {
            let entry = self.members.entry(i);
            flags.push(chain_has_key(chain, &entry.1.sig.public_key));
            i += 1;
        }
        let kept = self.members.keep(&flags);
        proof {
            let keep = |n: Name, s: AuthedNodeState| spec_has_key(*chain, s.sig.public_key.bytes@);
            let entries = self.members.spec_entries();
            assert(kept@ =~= map_filter(self.members@, keep)) by {
                assert forall|n: Name|
                    kept@.contains_key(n) <==> self.members@.contains_key(n) && keep(
                        n,
                        self.members@[n],
                    ) by {
                    if has_key(entries, n) {
                        lemma_entry(entries, index_of(entries, n));
                    }
                }
            }
        }
        self.members = kept;
    }

    /// Drops from the archive the states that were signed with a key that the chain does not
    /// hold. The members stay.
    pub fn prune_members_archive(&mut self, chain: &SecuredLinkedList)
        ensures
            final(self).wf(),
            final(self).spec_members() == old(self).spec_members(),
            final(self).spec_len() == old(self).spec_len(),
            final(self).spec_archive() == map_filter(
                old(self).spec_archive(),
                |n: Name, s: AuthedNodeState| spec_has_key(*chain, s.sig.public_key.bytes@),
            ),
    {
        proof {
            use_type_invariant(&*self);
        }
        let mut flags: Vec<bool> = Vec::new();
        let mut i: usize = 0;
        while i < self.archive.len()
            invariant
                i <= self.archive.spec_len(),
                flags@.len() == i,
                forall|k: int|
                    0 <= k < i ==> #[trigger] flags@[k] == spec_has_key(
                        *chain,
                        self.archive.spec_entries()[k].1.sig.public_key.bytes@,
                    ),
            decreases self.archive.spec_len() - i,
        {
            let entry = self.archive.entry(i);
            flags.push(chain_has_key(chain, &entry.1.sig.public_key));
            i += 1;
        }
        let kept = self.archive.keep(&flags);
        proof {
            let keep = |n: Name, s: AuthedNodeState| spec_has_key(*chain, s.sig.public_key.bytes@);
            let entries = self.archive.spec_entries();
            assert(kept@ =~= map_filter(self.archive@, keep)) by {
                assert forall|n: Name|
                    kept@.contains_key(n) <==> self.archive@.contains_key(n) && keep(
                        n,
                        self.archive@[n],
                    ) by {
                    if has_key(entries, n) {
                        lemma_entry(entries, index_of(entries, n));
                    }
                }
            }
        }
        self.archive = kept;
    }

    /// The members' states, in the order of their names.
    pub fn members(&self) -> (list: Vec<AuthedNodeState>)
        ensures
            list@ == self.spec_member_list(),
            list@.len() == self.spec_len(),
            lists_states(list@, self.spec_members()),
    {
        proof {
            use_type_invariant(self);
        }
        let list = self.members.values();
        proof {
            let entries = self.members.spec_entries();
            assert forall|i: int| 0 <= i < list@.len() implies self.spec_members().contains_key(
                (#[trigger] list@[i]).value.name,
            ) && self.spec_members()[list@[i].value.name] == list@[i] && list@[i].value.name
                == entries[i].0 by {
                lemma_entry(entries, i);
            }
            assert forall|n: Name| self.spec_members().contains_key(n) implies list@.contains(
                #[trigger] self.spec_members()[n],
            ) by {
                let k = index_of(entries, n);
                lemma_entry(entries, k);
                assert(list@[k] == self.spec_members()[n]);
            }
            assert forall|i: int, j: int| 0 <= i < j < list@.len() implies (#[trigger] list@[i]).value.name.spec_lt(
                &(#[trigger] list@[j]).value.name,
            ) by {
                assert(entries[i].0.spec_lt(&entries[j].0));
            }
        }
        list
    }

    /// The number of members.
    pub fn num_of_members(&self) -> (n: usize)
        ensures
            n == self.spec_len(),
            n == self.spec_members().len(),
            self.spec_members().dom().finite(),
    {
        proof {
            use_type_invariant(self);
            self.members.lemma_len();
        }
        self.members.len()
    }

    /// The state of the member with the name.
    pub fn get(&self, name: &Name) -> (r: Option<NodeState>)
        ensures
            r == (if self.spec_members().contains_key(*name) {
                Some(self.spec_members()[*name].value)
            } else {
                None
            }),
    {
        proof {
            use_type_invariant(self);
        }
        match self.members.get(name) {
            Some(state) => Some(state.value),
            None => None,
        }
    }

    /// Whether the name is that of a member.
    pub fn is_member(&self, name: &Name) -> (r: bool)
        ensures
            r == self.spec_members().contains_key(*name),
    {
        proof {
            use_type_invariant(self);
        }
        self.members.contains(name)
    }

    /// The state under the name, from the members or else from the archive.
    pub fn is_either_member_or_archived(&self, name: &Name) -> (r: Option<AuthedNodeState>)
        ensures
            r == (if self.spec_members().contains_key(*name) {
                Some(self.spec_members()[*name])
            } else if self.spec_archive().contains_key(*name) {
                Some(self.spec_archive()[*name])
            } else {
                None
            }),
    {
        proof {
            use_type_invariant(self);
        }
        match self.members.get(name) {
            Some(state) => Some(state),
            None => self.archive.get(name),
        }
    }

    /// Whether a member was known under the name before it was moved here.
    pub fn is_relocated_to_our_section(&self, name: &Name) -> (r: bool)
        ensures
            r == (exists|n: Name|
                self.spec_members().contains_key(n) && (#[trigger] self.spec_members()[n]).value.previous_name
                    == Some(*name)),
    {
        proof {
            use_type_invariant(self);
        }
        let ghost entries = self.members.spec_entries();
        let mut i: usize = 0;
        while i < self.members.len()
            invariant
                i <= self.members.spec_len(),
                entries == self.members.spec_entries(),
                self.members.wf(),
                forall|k: int|
                    0 <= k < i ==> (#[trigger] entries[k]).1.value.previous_name != Some(*name),
            decreases self.members.spec_len() - i,
        {
            let entry = self.members.entry(i);
            let found = match &entry.1.value.previous_name {
                Some(previous) => previous.same(name),
                None => false,
            };
            if found {
                proof {
                    lemma_entry(entries, i as int);
                }
                return true;
            }
            i += 1;
        }
        proof {
            assert forall|n: Name|
                self.spec_members().contains_key(n) implies (#[trigger] self.spec_members()[n]).value.previous_name
                != Some(*name) by {
                let k = index_of(entries, n);
                lemma_entry(entries, k);
            }
        }
        false
    }
}

} // verus!
