//! Which adults keep a chunk: those closest to its name.

use vstd::prelude::*;
use crate::name::Name;
use crate::seq_util::{select_lowest, spec_bytes_lt};

verus! {

/// The number of adults that keep each chunk.
pub const CHUNK_COPY_COUNT: usize = 4;

/// How far a name is from a target: the two taken apart bit by bit. The lower, the closer.
pub open spec fn spec_distance(name: Name, target: Name) -> Seq<u8> {
    Seq::new(32, |i: int| name.bytes[i] ^ target.bytes[i])
}

/// Whether the first name is closer to the target than the second.
pub open spec fn spec_closer(target: Name, a: Name, b: Name) -> bool {
    spec_bytes_lt(spec_distance(a, target), spec_distance(b, target))
}

/// How far a name is from a target.
pub fn distance(name: &Name, target: &Name) -> (d: Vec<u8>)
    ensures
        d@ == spec_distance(*name, *target),
{
    let mut d: Vec<u8> = Vec::new();
    let mut i: usize = 0;
    while i < 32
        invariant
            i <= 32,
            d@.len() == i,
            forall|k: int| 0 <= k < i ==> d@[k] == name.bytes[k] ^ target.bytes[k],
        decreases 32 - i,
    {
        d.push(name.bytes[i] ^ target.bytes[i]);
        i += 1;
    }
    assert(d@ =~= spec_distance(*name, *target));
    d
}

/// Two names that are equally far from a target are the same name.
pub proof fn lemma_distance_tells(a: Name, b: Name, target: Name)
    requires
        spec_distance(a, target) == spec_distance(b, target),
    ensures
        a == b,
{
    assert forall|i: int| 0 <= i < 32 implies a.bytes[i] == b.bytes[i] by {
        let x = a.bytes[i];
        let y = b.bytes[i];
        let t = target.bytes[i];
        assert(spec_distance(a, target)[i] == x ^ t);
        assert(spec_distance(b, target)[i] == y ^ t);
        assert(x == y) by (bit_vector)
            requires
                x ^ t == y ^ t,
        ;
    }
    assert(a.bytes =~= b.bytes);
}

/// Whether one of the names is the given one.
pub fn is_listed(names: &Vec<Name>, name: &Name) -> (found: bool)
    ensures
        found == names@.contains(*name),
{
    let mut i: usize = 0;
    while i < names.len()
        invariant
            i <= names.len(),
            forall|k: int| 0 <= k < i ==> names@[k] != *name,
        decreases names.len() - i,
    {
        if names[i].same(name) {
            return true;
        }
        i += 1;
    }
    false
}

/// Whether the holders are the adults to keep the chunk with the target name: up to
/// `CHUNK_COPY_COUNT` adults that are not full, the closest to the target first, and no adult
/// that is not full and closer than one of them left out.
pub open spec fn spec_holders(
    target: Name,
    adults: Seq<Name>,
    full_adults: Seq<Name>,
    holders: Seq<Name>,
) -> bool {
    &&& holders.len() <= CHUNK_COPY_COUNT
    &&& forall|i: int|
        0 <= i < holders.len() ==> adults.contains(#[trigger] holders[i]) && !full_adults.contains(
            holders[i],
        )
    &&& forall|i: int, j: int|
        0 <= i < j < holders.len() ==> spec_closer(target, #[trigger] holders[i], #[trigger] holders[j])
    &&& forall|n: Name, i: int|
        adults.contains(n) && !full_adults.contains(n) && !holders.contains(n) && 0 <= i
            < holders.len() ==> #[trigger] spec_closer(target, #[trigger] holders[i], n)
    &&& holders.len() < CHUNK_COPY_COUNT ==> forall|n: Name|
        adults.contains(n) && !full_adults.contains(n) ==> #[trigger] holders.contains(n)
}

/// The adults to keep the chunk with the target name: the `CHUNK_COPY_COUNT` adults closest
/// to it among those that are not full, the closest first.
pub fn chunk_holder_adults(target: &Name, adults: &Vec<Name>, full_adults: &Vec<Name>) -> (holders:
    Vec<Name>)
    ensures
        spec_holders(*target, adults@, full_adults@, holders@),
{
    // the adults that are not full, each once, and how far each is from the target
    let mut able: Vec<Name> = Vec::new();
    let mut keys: Vec<Vec<u8>> = Vec::new();
    let mut i: usize = 0;
    while i < adults.len()
        invariant
            i <= adults.len(),
            keys@.len() == able@.len(),
            forall|j: int|
                0 <= j < able@.len() ==> (#[trigger] keys@[j])@ == spec_distance(able@[j], *target),
            forall|j: int|
                0 <= j < able@.len() ==> adults@.contains(#[trigger] able@[j])
                    && !full_adults@.contains(able@[j]),
            forall|a: int, b: int| 0 <= a < b < able@.len() ==> able@[a] != able@[b],
            forall|k: int|
                0 <= k < i && !full_adults@.contains(#[trigger] adults@[k]) ==> able@.contains(
                    adults@[k],
                ),
        decreases adults.len() - i,
    {
        let name = adults[i];
        if !is_listed(full_adults, &name) && !is_listed(&able, &name) {
            let ghost before = able@;
            able.push(name);
            keys.push(distance(&name, target));
            proof {
                assert forall|k: int|
                    0 <= k < i + 1 && !full_adults@.contains(#[trigger] adults@[k]) implies able@.contains(
                    adults@[k],
                ) by {
                    if k < i {
                        let j = choose|j: int| 0 <= j < before.len() && before[j] == adults@[k];
                        assert(able@[j] == adults@[k]);
                    } else {
                        assert(able@[able@.len() - 1] == adults@[k]);
                    }
                }
            }
        }
        i += 1;
    }
    let ghost all = keys@.map_values(|key: Vec<u8>| key@);
    proof {
        assert forall|a: int, b: int| 0 <= a < b < keys@.len() implies (#[trigger] keys@[a])@
            != (#[trigger] keys@[b])@ by {
            if keys@[a]@ == keys@[b]@ {
                lemma_distance_tells(able@[a], able@[b], *target);
            }
        }
    }
    let picked = select_lowest(&keys, CHUNK_COPY_COUNT);
    let total: usize = able.len();
    let mut holders: Vec<Name> = Vec::new();
    let mut c: usize = 0;
    while c < picked.len()
        invariant
            c <= picked@.len(),
            holders@.len() == c,
            total == able@.len(),
            forall|i: int| 0 <= i < picked@.len() ==> (#[trigger] picked@[i]) < able@.len(),
            forall|i: int| 0 <= i < c ==> #[trigger] holders@[i] == able@[picked@[i] as int],
        decreases picked@.len() - c,
    {
        holders.push(able[picked[c]]);
        c += 1;
    }
    proof {
        assert forall|t: int| 0 <= t < able@.len() implies #[trigger] all[t] == spec_distance(
            able@[t],
            *target,
        ) by {
            assert(keys@[t]@ == spec_distance(able@[t], *target));
        }
        assert forall|i: int| 0 <= i < holders@.len() implies adults@.contains(
            #[trigger] holders@[i],
        ) && !full_adults@.contains(holders@[i]) by {
            assert(holders@[i] == able@[picked@[i] as int]);
        }
        assert forall|i: int, j: int| 0 <= i < j < holders@.len() implies spec_closer(
            *target,
            #[trigger] holders@[i],
            #[trigger] holders@[j],
        ) by {
            assert(spec_bytes_lt(all[picked@[i] as int], all[picked@[j] as int]));
        }
        assert forall|n: Name|
            adults@.contains(n) && !full_adults@.contains(n) implies able@.contains(n) by {
            let k = choose|k: int| 0 <= k < adults@.len() && adults@[k] == n;
            assert(able@.contains(adults@[k]));
        }
        assert forall|n: Name, i: int|
            adults@.contains(n) && !full_adults@.contains(n) && !holders@.contains(n) && 0 <= i
                < holders@.len() implies #[trigger] spec_closer(*target, #[trigger] holders@[i], n) by {
            let t = choose|t: int| 0 <= t < able@.len() && able@[t] == n;
            if picked@.contains(t as usize) {
                let k = choose|k: int| 0 <= k < picked@.len() && picked@[k] == t as usize;
                assert(holders@[k] == n);
            }
            assert(spec_bytes_lt(all[picked@[i] as int], all[t]));
        }
        if holders@.len() < CHUNK_COPY_COUNT {
            assert forall|n: Name|
                adults@.contains(n) && !full_adults@.contains(n) implies #[trigger] holders@.contains(
                n,
            ) by {
                let t = choose|t: int| 0 <= t < able@.len() && able@[t] == n;
                // every place is picked where fewer were picked than asked for
                lemma_all_picked(picked@, able@.len() as int, t);
                let k = choose|k: int| 0 <= k < picked@.len() && picked@[k] == t as usize;
                assert(holders@[k] == n);
            }
        }
    }
    holders
}

/// Places that are all different and as many as there are places are all the places.
proof fn lemma_all_picked(picked: Seq<usize>, n: int, t: int)
    requires
        picked.len() == n,
        n <= usize::MAX,
        0 <= t < n,
        forall|i: int| 0 <= i < picked.len() ==> (#[trigger] picked[i]) < n,
        forall|i: int, j: int| 0 <= i < j < picked.len() ==> (#[trigger] picked[i]) != (#[trigger] picked[j]),
    ensures
        picked.contains(t as usize),
{
    let values = picked.to_set();
    let places = Set::new(|p: usize| p < n);
    assert(picked.no_duplicates()) by {
        assert forall|i: int, j: int| 0 <= i < picked.len() && 0 <= j < picked.len() && i != j implies picked[i]
            != picked[j] by {
            if i < j {
                assert(picked[i] != picked[j]);
            } else {
                assert(picked[j] != picked[i]);
            }
        }
    }
    picked.unique_seq_to_set();
    assert(values.len() == n);
    lemma_places(n as nat);
    assert(values.subset_of(places)) by {
        assert forall|p: usize| values.contains(p) implies places.contains(p) by {
            let i = choose|i: int| 0 <= i < picked.len() && picked[i] == p;
            assert(picked[i] < n);
        }
    }
    vstd::set_lib::lemma_subset_equality(values, places);
    assert(places.contains(t as usize));
}

/// There are `n` places below `n`.
proof fn lemma_places(n: nat)
    requires
        n <= usize::MAX,
    ensures
        Set::new(|p: usize| p < n).finite(),
        Set::new(|p: usize| p < n).len() == n,
    decreases n,
{
    let places = Set::new(|p: usize| p < n);
    if n == 0 {
        assert(places =~= Set::<usize>::empty());
    } else {
        let fewer = Set::new(|p: usize| p < n - 1);
        lemma_places((n - 1) as nat);
        assert(places =~= fewer.insert((n - 1) as usize));
    }
}

} // verus!
