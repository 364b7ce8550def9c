//! Small facts about sequences that several modules lean on.

use vstd::prelude::*;

verus! {

/// Filtering a sequence with one more element keeps or drops that element and nothing else.
pub proof fn lemma_filter_push<T>(s: Seq<T>, x: T, keep: spec_fn(T) -> bool)
    ensures
        s.push(x).filter(keep) == (if keep(x) {
            s.filter(keep).push(x)
        } else {
            s.filter(keep)
        }),
{
    reveal(Seq::filter);
    assert(s.push(x).drop_last() =~= s);
}

/// Every element that a filter keeps was there before and meets the condition.
pub proof fn lemma_filter_contains<T>(s: Seq<T>, keep: spec_fn(T) -> bool, x: T)
    ensures
        s.filter(keep).contains(x) <==> s.contains(x) && keep(x),
    decreases s.len(),
{
    reveal(Seq::filter);
    if s.len() > 0 {
        let head = s.drop_last();
        lemma_filter_contains(head, keep, x);
        lemma_filter_push(head, s.last(), keep);
        assert(s =~= head.push(s.last()));
        if s.contains(x) {
            let i = choose|i: int| 0 <= i < s.len() && s[i] == x;
            if i < s.len() - 1 {
                assert(head[i] == x);
            }
        }
        if head.contains(x) {
            let i = choose|i: int| 0 <= i < head.len() && head[i] == x;
            assert(s[i] == x);
        }
        if s.filter(keep).contains(x) {
            let f = s.filter(keep);
            let i = choose|i: int| 0 <= i < f.len() && f[i] == x;
            if keep(s.last()) {
                if i < f.len() - 1 {
                    assert(head.filter(keep)[i] == x);
                } else {
                    assert(s[s.len() - 1] == x);
                }
            }
        }
        if s.contains(x) && keep(x) {
            if head.contains(x) {
                let f = head.filter(keep);
                let i = choose|i: int| 0 <= i < f.len() && f[i] == x;
                assert(s.filter(keep)[i] == x);
            } else {
                let f = s.filter(keep);
                assert(f[f.len() - 1] == x);
            }
        }
    }
}

/// The first place at or after `from` at which two byte strings of one length differ, or
/// their length.
pub open spec fn spec_first_diff(a: Seq<u8>, b: Seq<u8>, from: int) -> int
    decreases a.len() - from,
{
    if from < 0 || from >= a.len() {
        a.len() as int
    } else if a[from] != b[from] {
        from
    } else {
        spec_first_diff(a, b, from + 1)
    }
}

/// Whether the first of two byte strings of one length comes before the second, byte by
/// byte.
pub open spec fn spec_bytes_lt(a: Seq<u8>, b: Seq<u8>) -> bool {
    let d = spec_first_diff(a, b, 0);
    d < a.len() && a[d] < b[d]
}

/// Where the first difference lies: the strings agree before it and differ at it.
pub proof fn lemma_bytes_first_diff(a: Seq<u8>, b: Seq<u8>, from: int)
    requires
        0 <= from <= a.len(),
        a.len() == b.len(),
    ensures
        from <= spec_first_diff(a, b, from) <= a.len(),
        forall|j: int| from <= j < spec_first_diff(a, b, from) ==> a[j] == b[j],
        spec_first_diff(a, b, from) < a.len() ==> a[spec_first_diff(a, b, from)] != b[spec_first_diff(
            a,
            b,
            from,
        )],
    decreases a.len() - from,
{
    if from < a.len() && a[from] == b[from] {
        lemma_bytes_first_diff(a, b, from + 1);
    }
}

/// A place before which two strings agree and at which they differ is their first
/// difference.
pub proof fn lemma_bytes_first_diff_is(a: Seq<u8>, b: Seq<u8>, from: int, d: int)
    requires
        0 <= from <= d <= a.len(),
        a.len() == b.len(),
        forall|j: int| from <= j < d ==> a[j] == b[j],
        d < a.len() ==> a[d] != b[d],
    ensures
        spec_first_diff(a, b, from) == d,
    decreases d - from,
{
    if from < d {
        lemma_bytes_first_diff_is(a, b, from + 1, d);
    }
}

/// The order of byte strings of one length is transitive.
pub proof fn lemma_bytes_lt_transitive(a: Seq<u8>, b: Seq<u8>, c: Seq<u8>)
    requires
        a.len() == b.len() == c.len(),
        spec_bytes_lt(a, b),
        spec_bytes_lt(b, c),
    ensures
        spec_bytes_lt(a, c),
{
    lemma_bytes_first_diff(a, b, 0);
    lemma_bytes_first_diff(b, c, 0);
    let i = spec_first_diff(a, b, 0);
    let j = spec_first_diff(b, c, 0);
    let k = if i <= j { i } else { j };
    lemma_bytes_first_diff_is(a, c, 0, k);
}

/// Of two byte strings of one length, one comes before the other or they are the same;
/// never both ways.
pub proof fn lemma_bytes_lt_total(a: Seq<u8>, b: Seq<u8>)
    requires
        a.len() == b.len(),
    ensures
        spec_bytes_lt(a, b) || a == b || spec_bytes_lt(b, a),
        !(spec_bytes_lt(a, b) && spec_bytes_lt(b, a)),
        !spec_bytes_lt(a, a),
{
    lemma_bytes_first_diff(a, b, 0);
    lemma_bytes_first_diff(b, a, 0);
    lemma_bytes_first_diff(a, a, 0);
    let d = spec_first_diff(a, b, 0);
    lemma_bytes_first_diff_is(b, a, 0, d);
    if d == a.len() {
        assert(a =~= b);
    }
}

/// Whether the first of two byte strings of one length comes before the second.
pub fn bytes_lt(a: &[u8], b: &[u8]) -> (r: bool)
    requires
        a@.len() == b@.len(),
    ensures
        r == spec_bytes_lt(a@, b@),
{
    let mut i: usize = 0;
    while i < a.len()
        invariant
            i <= a.len(),
            a@.len() == b@.len(),
            spec_first_diff(a@, b@, 0) == spec_first_diff(a@, b@, i as int),
        decreases a.len() - i,
    {
        if a[i] != b[i] {
            return a[i] < b[i];
        }
        i += 1;
    }
    false
}

/// Whether the places are those of the `k` lowest of the keys, or of all keys where there
/// are fewer, the lowest first.
pub open spec fn spec_lowest(keys: Seq<Seq<u8>>, k: int, picked: Seq<usize>) -> bool {
    &&& picked.len() == (if k < keys.len() { k } else { keys.len() as int })
    &&& forall|i: int| 0 <= i < picked.len() ==> (#[trigger] picked[i]) < keys.len()
    &&& forall|i: int, j: int|
        0 <= i < j < picked.len() ==> spec_bytes_lt(
            keys[(#[trigger] picked[i]) as int],
            keys[(#[trigger] picked[j]) as int],
        )
    &&& forall|t: int, i: int|
        0 <= t < keys.len() && !picked.contains(t as usize) && 0 <= i < picked.len()
            ==> spec_bytes_lt(keys[(#[trigger] picked[i]) as int], #[trigger] keys[t])
}

/// The places of the `k` lowest of the keys, the lowest first. The keys must be of one
/// length and no two the same.
pub fn select_lowest(keys: &Vec<Vec<u8>>, k: usize) -> (picked: Vec<usize>)
    requires
        forall|a: int, b: int|
            0 <= a < keys@.len() && 0 <= b < keys@.len() ==> (#[trigger] keys@[a])@.len()
                == (#[trigger] keys@[b])@.len(),
        forall|a: int, b: int|
            0 <= a < b < keys@.len() ==> (#[trigger] keys@[a])@ != (#[trigger] keys@[b])@,
    ensures
        spec_lowest(keys@.map_values(|key: Vec<u8>| key@), k as int, picked@),
{
    let ghost all = keys@.map_values(|key: Vec<u8>| key@);
    let n = keys.len();
    let mut taken: Vec<bool> = Vec::new();
    let mut i: usize = 0;
    while i < n
        invariant
            i <= n,
            taken@.len() == i,
            forall|t: int| 0 <= t < i ==> !taken@[t],
        decreases n - i,
    {
        taken.push(false);
        i += 1;
    }
    let mut picked: Vec<usize> = Vec::new();
    proof {
        lemma_count_none(taken@, n as int);
    }
    while picked.len() < k && picked.len() < n
        invariant
            n == keys@.len(),
            all == keys@.map_values(|key: Vec<u8>| key@),
            taken@.len() == n,
            picked@.len() <= n,
            picked@.len() <= k,
            forall|a: int, b: int|
                0 <= a < n && 0 <= b < n ==> (#[trigger] all[a]).len() == (#[trigger] all[b]).len(),
            forall|a: int, b: int| 0 <= a < b < n ==> (#[trigger] all[a]) != (#[trigger] all[b]),
            forall|i: int| 0 <= i < picked@.len() ==> (#[trigger] picked@[i]) < n && taken@[picked@[i] as int],
            forall|t: int| 0 <= t < n && #[trigger] taken@[t] ==> picked@.contains(t as usize),
            forall|i: int, j: int|
                0 <= i < j < picked@.len() ==> spec_bytes_lt(
                    all[(#[trigger] picked@[i]) as int],
                    all[(#[trigger] picked@[j]) as int],
                ),
            forall|t: int, i: int|
                0 <= t < n && !taken@[t] && 0 <= i < picked@.len() ==> spec_bytes_lt(
                    all[(#[trigger] picked@[i]) as int],
                    #[trigger] all[t],
                ),
            // as many are taken as were picked, so some are left while fewer than all are picked
            spec_count(taken@, n as int) == picked@.len(),
        decreases n - picked@.len(),
    {
        // the first key that is not taken yet
        let mut best: usize = 0;
        proof {
            lemma_some_left(taken@, n as int);
        }
        while taken[best]
            invariant
                n == keys@.len(),
                taken@.len() == n,
                best < n,
                forall|t: int| 0 <= t < best ==> taken@[t],
                exists|t: int| best <= t < n && !taken@[t],
            decreases n - best,
        {
            proof {
                let t = choose|t: int| best <= t < n && !taken@[t];
                assert(best + 1 <= t < n && !taken@[t]);
            }
            best += 1;
        }
        let mut j: usize = best + 1;
        while j < n
            invariant
                n == keys@.len(),
                all == keys@.map_values(|key: Vec<u8>| key@),
                taken@.len() == n,
                best < j <= n,
                !taken@[best as int],
                forall|a: int, b: int|
                    0 <= a < n && 0 <= b < n ==> (#[trigger] all[a]).len() == (#[trigger] all[b]).len(),
                forall|a: int, b: int| 0 <= a < b < n ==> (#[trigger] all[a]) != (#[trigger] all[b]),
                forall|t: int|
                    0 <= t < j && !taken@[t] && t != best ==> spec_bytes_lt(
                        all[best as int],
                        #[trigger] all[t],
                    ),
            decreases n - j,
        {
            if !taken[j] {
                proof {
                    assert(all[best as int] != all[j as int]);
                    assert(all[best as int].len() == all[j as int].len());
                    lemma_bytes_lt_total(all[j as int], all[best as int]);
                    assert(keys@[j as int]@ == all[j as int] && keys@[best as int]@ == all[best as int]);
                }
                if bytes_lt(keys[j].as_slice(), keys[best].as_slice()) {
                    proof {
                        assert forall|t: int| 0 <= t < j + 1 && !taken@[t] && t != j implies spec_bytes_lt(
                            all[j as int],
                            #[trigger] all[t],
                        ) by {
                            if t != best {
                                assert(all[j as int].len() == all[best as int].len());
                                assert(all[best as int].len() == all[t].len());
                                lemma_bytes_lt_transitive(all[j as int], all[best as int], all[t]);
                            }
                        }
                    }
                    best = j;
                }
            }
            j += 1;
        }
        let ghost taken_before = taken@;
        let ghost picked_before = picked@;
        taken[best] = true;
        picked.push(best);
        proof {
            lemma_count_set(taken_before, best as int, n as int);
            assert forall|t: int| 0 <= t < n && #[trigger] taken@[t] implies picked@.contains(
                t as usize,
            ) by {
                if t == best {
                    assert(picked@[picked@.len() - 1] == best);
                } else {
                    assert(taken_before[t]);
                    let i = choose|i: int| 0 <= i < picked_before.len() && picked_before[i] == t as usize;
                    assert(picked@[i] == t as usize);
                }
            }
            assert forall|i: int, j: int| 0 <= i < j < picked@.len() implies spec_bytes_lt(
                all[(#[trigger] picked@[i]) as int],
                all[(#[trigger] picked@[j]) as int],
            ) by {
                if j == picked@.len() - 1 {
                    assert(picked@[i] == picked_before[i]);
                    assert(spec_bytes_lt(all[picked_before[i] as int], all[best as int]));
                } else {
                    assert(picked@[i] == picked_before[i] && picked@[j] == picked_before[j]);
                }
            }
            assert forall|t: int, i: int|
                0 <= t < n && !taken@[t] && 0 <= i < picked@.len() implies spec_bytes_lt(
                all[(#[trigger] picked@[i]) as int],
                #[trigger] all[t],
            ) by {
                if i < picked_before.len() {
                    assert(picked@[i] == picked_before[i]);
                }
            }
            assert forall|i: int| 0 <= i < picked@.len() implies (#[trigger] picked@[i]) < n
                && taken@[picked@[i] as int] by {
                if i < picked_before.len() {
                    assert(picked@[i] == picked_before[i]);
                }
            }
        }
    }
    proof {
        assert forall|t: int, i: int|
            0 <= t < n && !picked@.contains(t as usize) && 0 <= i < picked@.len() implies spec_bytes_lt(
            all[(#[trigger] picked@[i]) as int],
            #[trigger] all[t],
        ) by {
            if taken@[t] {
                assert(picked@.contains(t as usize));
            }
        }
    }
    picked
}

/// How many of the first `upto` flags are set.
pub open spec fn spec_count(flags: Seq<bool>, upto: int) -> int
    decreases upto,
{
    if upto <= 0 {
        0
    } else {
        spec_count(flags, upto - 1) + (if flags[upto - 1] {
            1int
        } else {
            0int
        })
    }
}

/// Where no flag is set, none is counted.
pub proof fn lemma_count_none(flags: Seq<bool>, upto: int)
    requires
        0 <= upto <= flags.len(),
        forall|t: int| 0 <= t < upto ==> !flags[t],
    ensures
        spec_count(flags, upto) == 0,
    decreases upto,
{
    if upto > 0 {
        lemma_count_none(flags, upto - 1);
    }
}

/// Where fewer flags are set than there are, one is not set.
pub proof fn lemma_some_left(flags: Seq<bool>, upto: int)
    requires
        0 <= upto <= flags.len(),
        spec_count(flags, upto) < upto,
    ensures
        exists|t: int| 0 <= t < upto && !flags[t],
    decreases upto,
{
    if flags[upto - 1] {
        lemma_count_bound(flags, upto - 1);
        lemma_some_left(flags, upto - 1);
        let t = choose|t: int| 0 <= t < upto - 1 && !flags[t];
        assert(0 <= t < upto && !flags[t]);
    } else {
        assert(0 <= upto - 1 < upto && !flags[upto - 1]);
    }
}

/// No more flags are set than there are.
pub proof fn lemma_count_bound(flags: Seq<bool>, upto: int)
    requires
        0 <= upto <= flags.len(),
    ensures
        0 <= spec_count(flags, upto) <= upto,
    decreases upto,
{
    if upto > 0 {
        lemma_count_bound(flags, upto - 1);
    }
}

/// Setting a flag that was not set makes one more that is set.
pub proof fn lemma_count_set(flags: Seq<bool>, at: int, upto: int)
    requires
        0 <= at < flags.len(),
        0 <= upto <= flags.len(),
        !flags[at],
    ensures
        spec_count(flags.update(at, true), upto) == spec_count(flags, upto) + (if at < upto {
            1int
        } else {
            0int
        }),
    decreases upto,
{
    if upto > 0 {
        lemma_count_set(flags, at, upto - 1);
    }
}

} // verus!
