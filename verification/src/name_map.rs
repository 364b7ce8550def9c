//! A map from names, kept as a list in the order of the names.

use vstd::prelude::*;
use crate::name::{lemma_lt_total, lemma_lt_transitive, Name};

verus! {

/// A map from names to values. Its entries stand in the strict order of their names, so that
/// walking them is the same on every machine.
#[derive(Debug)]
pub struct NameMap<V> {
    entries: Vec<(Name, V)>,
}

/// Entries in the strict order of their names.
pub open spec fn keys_sorted<V>(s: Seq<(Name, V)>) -> bool {
    forall|i: int, j: int|
        0 <= i < j < s.len() ==> (#[trigger] s[i]).0.spec_lt(&(#[trigger] s[j]).0)
}

/// Whether an entry has the name.
pub open spec fn has_key<V>(s: Seq<(Name, V)>, name: Name) -> bool {
    exists|i: int| 0 <= i < s.len() && (#[trigger] s[i]).0 == name
}

/// Where the entry with the name stands.
pub open spec fn index_of<V>(s: Seq<(Name, V)>, name: Name) -> int {
    choose|i: int| 0 <= i < s.len() && (#[trigger] s[i]).0 == name
}

/// The map that the entries spell out.
pub open spec fn entries_map<V>(s: Seq<(Name, V)>) -> Map<Name, V> {
    Map::new(|n: Name| has_key(s, n), |n: Name| s[index_of(s, n)].1)
}

/// The part of a map whose entries meet a condition.
pub open spec fn map_filter<V>(m: Map<Name, V>, keep: spec_fn(Name, V) -> bool) -> Map<Name, V> {
    Map::new(|n: Name| m.contains_key(n) && keep(n, m[n]), |n: Name| m[n])
}

/// Whether the entry is one of the first `upto` entries and its flag is set.
pub open spec fn picked<V>(s: Seq<(Name, V)>, flags: Seq<bool>, upto: int, e: (Name, V)) -> bool {
    exists|k: int| 0 <= k < upto && flags[k] && s[k] == e
}

/// In sorted entries a name stands at one place only, and the map gives its value.
pub proof fn lemma_entry<V>(s: Seq<(Name, V)>, i: int)
    requires
        keys_sorted(s),
        0 <= i < s.len(),
    ensures
        has_key(s, s[i].0),
        index_of(s, s[i].0) == i,
        entries_map(s).contains_key(s[i].0),
        entries_map(s)[s[i].0] == s[i].1,
{
    let j = index_of(s, s[i].0);
    lemma_lt_total(s[i].0, s[j].0);
    if j < i {
        assert(s[j].0.spec_lt(&s[i].0));
    } else if i < j {
        assert(s[i].0.spec_lt(&s[j].0));
    }
}

/// A map spelled out by sorted entries has as many names as there are entries.
pub proof fn lemma_map_len<V>(s: Seq<(Name, V)>)
    requires
        keys_sorted(s),
    ensures
        entries_map(s).dom().finite(),
        entries_map(s).len() == s.len(),
    decreases s.len(),
{
    if s.len() == 0 {
        assert(entries_map(s).dom() =~= Set::<Name>::empty());
    } else {
        let head = s.drop_last();
        let n = s.len() - 1;
        assert(keys_sorted(head)) by {
            assert forall|i: int, j: int| 0 <= i < j < head.len() implies (#[trigger] head[i]).0.spec_lt(
                &(#[trigger] head[j]).0,
            ) by {
                assert(s[i].0.spec_lt(&s[j].0));
            }
        }
        lemma_map_len(head);
        lemma_entry(s, n);
        assert(!has_key(head, s[n].0)) by {
            if has_key(head, s[n].0) {
                let i = index_of(head, s[n].0);
                assert(s[i].0.spec_lt(&s[n].0));
                lemma_lt_total(s[n].0, s[n].0);
            }
        }
        assert(entries_map(s).dom() =~= entries_map(head).dom().insert(s[n].0)) by {
            assert forall|x: Name| #[trigger] has_key(s, x) <==> (has_key(head, x) || x == s[n].0) by {
                if has_key(s, x) {
                    let i = index_of(s, x);
                    if i < n {
                        assert(head[i].0 == x);
                    }
                }
                if has_key(head, x) {
                    let i = index_of(head, x);
                    assert(s[i].0 == x);
                }
            }
        }
    }
}

/// Two sorted lists of entries that spell out the same map are the same list.
pub proof fn lemma_entries_by_map<V>(s: Seq<(Name, V)>, t: Seq<(Name, V)>)
    requires
        keys_sorted(s),
        keys_sorted(t),
        entries_map(s) == entries_map(t),
    ensures
        s == t,
    decreases s.len(),
{
    if s.len() == 0 {
        if t.len() > 0 {
            lemma_entry(t, 0);
            assert(entries_map(s).contains_key(t[0].0));
        }
        assert(s =~= t);
    } else {
        let n = s.len() - 1;
        lemma_entry(s, n);
        let name = s[n].0;
        assert(entries_map(t).contains_key(name));
        let m = index_of(t, name);
        lemma_entry(t, m);
        // the last name of `s` is the greatest of the map, so it is the last of `t` too
        if m < t.len() - 1 {
            let k = t.len() - 1;
            lemma_entry(t, k);
            assert(entries_map(s).contains_key(t[k].0));
            let z = index_of(s, t[k].0);
            lemma_entry(s, z);
            assert(t[m].0.spec_lt(&t[k].0));
            lemma_lt_total(s[z].0, s[n].0);
            if z < n {
                assert(s[z].0.spec_lt(&s[n].0));
            }
        }
        let s1 = s.drop_last();
        let t1 = t.drop_last();
        assert(keys_sorted(s1)) by {
            assert forall|i: int, j: int| 0 <= i < j < s1.len() implies (#[trigger] s1[i]).0.spec_lt(
                &(#[trigger] s1[j]).0,
            ) by {
                assert(s[i].0.spec_lt(&s[j].0));
            }
        }
        assert(keys_sorted(t1)) by {
            assert forall|i: int, j: int| 0 <= i < j < t1.len() implies (#[trigger] t1[i]).0.spec_lt(
                &(#[trigger] t1[j]).0,
            ) by {
                assert(t[i].0.spec_lt(&t[j].0));
            }
        }
        assert(entries_map(s1) =~= entries_map(t1)) by {
            assert forall|x: Name| #[trigger] has_key(s1, x) <==> has_key(t1, x) by {
                if has_key(s1, x) {
                    let i = index_of(s1, x);
                    assert(s[i].0 == x);
                    lemma_entry(s, i);
                    assert(entries_map(t).contains_key(x));
                    let j = index_of(t, x);
                    lemma_entry(t, j);
                    assert(s[i].0.spec_lt(&s[n].0));
                    lemma_lt_total(x, name);
                    assert(t1[j].0 == x);
                }
                if has_key(t1, x) {
                    let j = index_of(t1, x);
                    assert(t[j].0 == x);
                    lemma_entry(t, j);
                    assert(entries_map(s).contains_key(x));
                    let i = index_of(s, x);
                    lemma_entry(s, i);
                    assert(t[j].0.spec_lt(&t[m].0));
                    lemma_lt_total(x, name);
                    assert(s1[i].0 == x);
                }
            }
            assert forall|x: Name| has_key(s1, x) implies #[trigger] entries_map(s1)[x]
                == entries_map(t1)[x] by {
                let i = index_of(s1, x);
                lemma_entry(s1, i);
                assert(s[i].0 == x);
                lemma_entry(s, i);
                let j = index_of(t1, x);
                lemma_entry(t1, j);
                assert(t[j].0 == x);
                lemma_entry(t, j);
            }
        }
        lemma_entries_by_map(s1, t1);
        assert(s =~= s1.push(s[n]));
        assert(t =~= t1.push(t[m]));
    }
}

impl<V: Copy> View for NameMap<V> {
    type V = Map<Name, V>;

    open spec fn view(&self) -> Map<Name, V> {
        entries_map(self.spec_entries())
    }
}

impl<V: Copy> NameMap<V> {
    /// The entries in the order of their names.
    pub closed spec fn spec_entries(&self) -> Seq<(Name, V)> {
        self.entries@
    }

    /// The entries stand in the strict order of their names.
    pub open spec fn wf(&self) -> bool {
        keys_sorted(self.spec_entries())
    }

    /// The number of names.
    pub open spec fn spec_len(&self) -> nat {
        self.spec_entries().len()
    }

    /// A map without entries.
    pub fn new() -> (map: Self)
        ensures
            map.wf(),
            map.spec_entries() == Seq::<(Name, V)>::empty(),
            map@ == Map::<Name, V>::empty(),
    {
        let map = NameMap { entries: Vec::new() };
        assert(map@ =~= Map::<Name, V>::empty());
        map
    }

    /// The number of entries.
    pub fn len(&self) -> (n: usize)
        ensures
            n == self.spec_len(),
    {
        self.entries.len()
    }

    /// The map has as many names as there are entries.
    pub proof fn lemma_len(&self)
        requires
            self.wf(),
        ensures
            self@.dom().finite(),
            self@.len() == self.spec_len(),
    {
        lemma_map_len(self.spec_entries());
    }

    /// The entry at a place in the order of names.
    pub fn entry(&self, i: usize) -> (e: (Name, V))
        requires
            i < self.spec_len(),
        ensures
            e == self.spec_entries()[i as int],
    {
        self.entries[i]
    }

    /// Where the name stands, or would stand.
    fn position(&self, name: &Name) -> (i: usize)
        requires
            self.wf(),
        ensures
            i <= self.spec_len(),
            forall|k: int| 0 <= k < i ==> (#[trigger] self.spec_entries()[k]).0.spec_lt(name),
            forall|k: int|
                i <= k < self.spec_len() ==> !(#[trigger] self.spec_entries()[k]).0.spec_lt(name),
            has_key(self.spec_entries(), *name) <==> i < self.spec_len()
                && self.spec_entries()[i as int].0 == *name,
    {
        let mut i: usize = 0;
        while i < self.entries.len() && self.entries[i].0.lt(name)
            invariant
                i <= self.entries.len(),
                forall|k: int| 0 <= k < i ==> (#[trigger] self.entries@[k]).0.spec_lt(name),
            decreases self.entries.len() - i,
        {
            i += 1;
        }
        proof {
            let s = self.entries@;
            assert forall|k: int| i <= k < s.len() implies !(#[trigger] s[k]).0.spec_lt(name) by {
                if k > i {
                    assert(s[i as int].0.spec_lt(&s[k].0));
                    if s[k].0.spec_lt(name) {
                        lemma_lt_transitive(s[i as int].0, s[k].0, *name);
                    }
                }
            }
            if has_key(s, *name) {
                let k = index_of(s, *name);
                lemma_lt_total(*name, *name);
                if k > i {
                    assert(s[i as int].0.spec_lt(&s[k].0));
                    lemma_lt_total(s[i as int].0, *name);
                }
            }
        }
        i
    }

    /// The value under the name.
    pub fn get(&self, name: &Name) -> (r: Option<V>)
        requires
            self.wf(),
        ensures
            r == (if self@.contains_key(*name) {
                Some(self@[*name])
            } else {
                None
            }),
    {
        let i = self.position(name);
        if i < self.entries.len() && self.entries[i].0.same(name) {
            proof {
                lemma_entry(self.entries@, i as int);
            }
            Some(self.entries[i].1)
        } else {
            None
        }
    }

    /// Whether there is a value under the name.
    pub fn contains(&self, name: &Name) -> (r: bool)
        requires
            self.wf(),
        ensures
            r == self@.contains_key(*name),
    {
        self.get(name).is_some()
    }

    /// Puts the value under the name and hands back the value that stood there.
    pub fn insert(&mut self, name: Name, value: V) -> (prev: Option<V>)
        requires
            old(self).wf(),
        ensures
            final(self).wf(),
            final(self)@ == old(self)@.insert(name, value),
            prev == (if old(self)@.contains_key(name) {
                Some(old(self)@[name])
            } else {
                None
            }),
            final(self).spec_len() == old(self).spec_len() + (if prev is Some {
                0nat
            } else {
                1nat
            }),
    {
        let ghost before = self.entries@;
        let i = self.position(&name);
        if i < self.entries.len() && self.entries[i].0.same(&name) {
            let prev = self.entries[i].1;
            self.entries[i] = (name, value);
            proof {
                let after = self.entries@;
                lemma_entry(before, i as int);
                assert(after == before.update(i as int, (name, value)));
                assert forall|a: int, b: int| 0 <= a < b < after.len() implies (#[trigger] after[a]).0.spec_lt(
                    &(#[trigger] after[b]).0,
                ) by {
                    assert(before[a].0.spec_lt(&before[b].0));
                }
                lemma_same_keys(before, after, name, value);
            }
            Some(prev)
        } else {
            self.entries.insert(i, (name, value));
            proof {
                let after = self.entries@;
                assert(after == before.insert(i as int, (name, value)));
                assert(forall|k: int| 0 <= k < i ==> after[k] == before[k]);
                assert(after[i as int] == (name, value));
                assert(forall|k: int| i < k < after.len() ==> after[k] == before[k - 1]);
                assert forall|k: int| i <= k < before.len() implies name.spec_lt(
                    &(#[trigger] before[k]).0,
                ) by {
                    lemma_lt_total(before[k].0, name);
                    if before[k].0 == name {
                        assert(has_key(before, name));
                    }
                }
                assert forall|a: int, b: int| 0 <= a < b < after.len() implies (#[trigger] after[a]).0.spec_lt(
                    &(#[trigger] after[b]).0,
                ) by {
                    if b < i {
                        assert(before[a].0.spec_lt(&before[b].0));
                    } else if b == i {
                    } else if a < i {
                        assert(before[a].0.spec_lt(&before[b - 1].0));
                    } else if a == i {
                        assert(name.spec_lt(&before[b - 1].0));
                    } else {
                        assert(before[a - 1].0.spec_lt(&before[b - 1].0));
                    }
                }
                assert(entries_map(after) =~= entries_map(before).insert(name, value)) by {
                    assert forall|x: Name| #[trigger]
                        has_key(after, x) <==> (x == name || has_key(before, x)) by {
                        if has_key(after, x) {
                            let k = index_of(after, x);
                            if k < i {
                                assert(before[k].0 == x);
                            } else if k > i {
                                assert(before[k - 1].0 == x);
                            }
                        }
                        if x == name {
                            assert(after[i as int].0 == x);
                        }
                        if has_key(before, x) {
                            let k = index_of(before, x);
                            if k < i {
                                assert(after[k].0 == x);
                            } else {
                                assert(after[k + 1].0 == x);
                            }
                        }
                    }
                    assert forall|x: Name| has_key(after, x) implies #[trigger] entries_map(after)[x]
                        == entries_map(before).insert(name, value)[x] by {
                        let k = index_of(after, x);
                        lemma_entry(after, k);
                        if k < i {
                            lemma_entry(before, k);
                        } else if k > i {
                            lemma_entry(before, k - 1);
                        }
                    }
                }
            }
            None
        }
    }

    /// Takes the name out and hands back the value that stood there.
    pub fn remove(&mut self, name: &Name) -> (prev: Option<V>)
        requires
            old(self).wf(),
        ensures
            final(self).wf(),
            final(self)@ == old(self)@.remove(*name),
            prev == (if old(self)@.contains_key(*name) {
                Some(old(self)@[*name])
            } else {
                None
            }),
            final(self).spec_len() == old(self).spec_len() - (if prev is Some {
                1nat
            } else {
                0nat
            }),
    {
        let ghost before = self.entries@;
        let i = self.position(name);
        if i < self.entries.len() && self.entries[i].0.same(name) {
            let removed = self.entries.remove(i);
            proof {
                let after = self.entries@;
                lemma_entry(before, i as int);
                assert(after == before.remove(i as int));
                assert(forall|k: int| 0 <= k < i ==> after[k] == before[k]);
                assert(forall|k: int| i <= k < after.len() ==> after[k] == before[k + 1]);
                assert forall|a: int, b: int| 0 <= a < b < after.len() implies (#[trigger] after[a]).0.spec_lt(
                    &(#[trigger] after[b]).0,
                ) by {
                    if b < i {
                        assert(before[a].0.spec_lt(&before[b].0));
                    } else if a < i {
                        assert(before[a].0.spec_lt(&before[b + 1].0));
                    } else {
                        assert(before[a + 1].0.spec_lt(&before[b + 1].0));
                    }
                }
                assert(entries_map(after) =~= entries_map(before).remove(*name)) by {
                    assert forall|x: Name| #[trigger]
                        has_key(after, x) <==> (x != *name && has_key(before, x)) by {
                        if has_key(after, x) {
                            let k = index_of(after, x);
                            lemma_entry(after, k);
                            if k < i {
                                assert(before[k].0 == x);
                                lemma_entry(before, k);
                            } else {
                                assert(before[k + 1].0 == x);
                                lemma_entry(before, k + 1);
                            }
                        }
                        if x != *name && has_key(before, x) {
                            let k = index_of(before, x);
                            lemma_entry(before, k);
                            if k < i {
                                assert(after[k].0 == x);
                            } else {
                                assert(after[k - 1].0 == x);
                            }
                        }
                    }
                    assert forall|x: Name| has_key(after, x) implies #[trigger] entries_map(after)[x]
                        == entries_map(before).remove(*name)[x] by {
                        let k = index_of(after, x);
                        lemma_entry(after, k);
                        if k < i {
                            lemma_entry(before, k);
                        } else {
                            lemma_entry(before, k + 1);
                        }
                    }
                }
            }
            Some(removed.1)
        } else {
            assert(entries_map(before) =~= entries_map(before).remove(*name));
            None
        }
    }

    /// The map of the entries whose flag is set; `flags` has one flag for each entry, in the
    /// order of the names.
    pub fn keep(&self, flags: &Vec<bool>) -> (kept: Self)
        requires
            self.wf(),
            flags@.len() == self.spec_len(),
        ensures
            kept.wf(),
            kept.spec_len() <= self.spec_len(),
            forall|n: Name|
                kept@.contains_key(n) <==> has_key(self.spec_entries(), n) && flags@[index_of(
                    self.spec_entries(),
                    n,
                )],
            forall|n: Name| kept@.contains_key(n) ==> #[trigger] kept@[n] == self@[n],
    {
        let mut out: Vec<(Name, V)> = Vec::new();
        let mut i: usize = 0;
        let ghost s = self.entries@;
        while i < self.entries.len()
            invariant
                i <= self.entries.len(),
                s == self.entries@,
                keys_sorted(s),
                flags@.len() == s.len(),
                out@.len() <= i,
                keys_sorted(out@),
                forall|a: int| 0 <= a < out@.len() ==> picked(s, flags@, i as int, #[trigger] out@[a]),
                forall|k: int| 0 <= k < i && flags@[k] ==> has_key(out@, (#[trigger] s[k]).0),
            decreases self.entries.len() - i,
        {
            proof {
                assert forall|a: int| 0 <= a < out@.len() implies picked(
                    s,
                    flags@,
                    i + 1,
                    #[trigger] out@[a],
                ) by {
                    let k = choose|k: int| 0 <= k < i && flags@[k] && s[k] == out@[a];
                    assert(0 <= k < i + 1 && flags@[k] && s[k] == out@[a]);
                }
            }
            if flags[i] {
                let ghost before = out@;
                out.push(self.entries[i]);
                proof {
                    assert forall|a: int, b: int| 0 <= a < b < out@.len() implies (#[trigger] out@[a]).0.spec_lt(
                        &(#[trigger] out@[b]).0,
                    ) by {
                        if b == out@.len() - 1 {
                            assert(picked(s, flags@, i as int, before[a]));
                            let k = choose|k: int| 0 <= k < i && flags@[k] && s[k] == before[a];
                            assert(s[k].0.spec_lt(&s[i as int].0));
                        } else {
                            assert(before[a].0.spec_lt(&before[b].0));
                        }
                    }
                    assert forall|a: int| 0 <= a < out@.len() implies picked(
                        s,
                        flags@,
                        i + 1,
                        #[trigger] out@[a],
                    ) by {
                        if a == out@.len() - 1 {
                            assert(0 <= i < i + 1 && flags@[i as int] && s[i as int] == out@[a]);
                        } else {
                            assert(picked(s, flags@, i + 1, before[a]));
                        }
                    }
                    assert forall|k: int| 0 <= k < i + 1 && flags@[k] implies has_key(
                        out@,
                        (#[trigger] s[k]).0,
                    ) by {
                        if k == i {
                            assert(out@[out@.len() - 1].0 == s[k].0);
                        } else {
                            let a = index_of(before, s[k].0);
                            assert(out@[a].0 == s[k].0);
                        }
                    }
                }
            }
            i += 1;
        }
        let kept = NameMap { entries: out };
        proof {
            let o = kept.entries@;
            assert forall|n: Name|
                kept@.contains_key(n) <==> has_key(s, n) && flags@[index_of(s, n)] by {
                if kept@.contains_key(n) {
                    let a = index_of(o, n);
                    assert(picked(s, flags@, s.len() as int, o[a]));
                    let k = choose|k: int| 0 <= k < s.len() && flags@[k] && s[k] == o[a];
                    lemma_entry(s, k);
                }
                if has_key(s, n) && flags@[index_of(s, n)] {
                    let k = index_of(s, n);
                    assert(has_key(o, s[k].0));
                }
            }
            assert forall|n: Name| kept@.contains_key(n) implies #[trigger] kept@[n] == self@[n] by {
                let a = index_of(o, n);
                lemma_entry(o, a);
                assert(picked(s, flags@, s.len() as int, o[a]));
                let k = choose|k: int| 0 <= k < s.len() && flags@[k] && s[k] == o[a];
                lemma_entry(s, k);
            }
        }
        kept
    }

    /// The values in the order of their names.
    pub fn values(&self) -> (values: Vec<V>)
        ensures
            values@ == self.spec_entries().map_values(|e: (Name, V)| e.1),
    {
        let mut values: Vec<V> = Vec::new();
        let mut i: usize = 0;
        while i < self.entries.len()
            invariant
                i <= self.entries.len(),
                values@ == self.entries@.take(i as int).map_values(|e: (Name, V)| e.1),
            decreases self.entries.len() - i,
        {
            values.push(self.entries[i].1);
            proof {
                let f = |e: (Name, V)| e.1;
                assert(self.entries@.take(i + 1) == self.entries@.take(i as int).push(
                    self.entries@[i as int],
                ));
                assert(self.entries@.take(i + 1).map_values(f) =~= self.entries@.take(
                    i as int,
                ).map_values(f).push(f(self.entries@[i as int])));
            }
            i += 1;
        }
        assert(self.entries@.take(self.entries.len() as int) == self.entries@);
        values
    }

    /// A copy of the map.
    pub fn duplicate(&self) -> (copy: Self)
        ensures
            copy.spec_entries() == self.spec_entries(),
            copy@ == self@,
    {
        let mut entries: Vec<(Name, V)> = Vec::new();
        let mut i: usize = 0;
        while i < self.entries.len()
            invariant
                i <= self.entries.len(),
                entries@ == self.entries@.take(i as int),
            decreases self.entries.len() - i,
        {
            entries.push(self.entries[i]);
            assert(self.entries@.take(i + 1) == self.entries@.take(i as int).push(
                self.entries@[i as int],
            ));
            i += 1;
        }
        assert(self.entries@.take(self.entries.len() as int) == self.entries@);
        NameMap { entries }
    }
}

proof fn lemma_same_keys<V>(before: Seq<(Name, V)>, after: Seq<(Name, V)>, name: Name, value: V)
    requires
        keys_sorted(before),
        keys_sorted(after),
        has_key(before, name),
        after == before.update(index_of(before, name), (name, value)),
        0 <= index_of(before, name) < before.len(),
    ensures
        entries_map(after) =~= entries_map(before).insert(name, value),
{
    let i = index_of(before, name);
    assert forall|x: Name| #[trigger] has_key(after, x) <==> (x == name || has_key(before, x)) by {
        if has_key(after, x) {
            let k = index_of(after, x);
            if k != i {
                assert(before[k].0 == x);
            }
        }
        if x == name {
            assert(after[i].0 == x);
        }
        if has_key(before, x) {
            let k = index_of(before, x);
            assert(after[k].0 == x);
        }
    }
    assert forall|x: Name| has_key(after, x) implies #[trigger] entries_map(after)[x]
        == entries_map(before).insert(name, value)[x] by {
        let k = index_of(after, x);
        lemma_entry(after, k);
        if k != i {
            lemma_entry(before, k);
            lemma_entry(before, i);
        }
    }
}

} // verus!
