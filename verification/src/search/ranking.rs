//! The parts of result ranking that are not arithmetic on scores: grouping results that share
//! a key, the source a group is reported under, and how many results a limit cuts off.

use vstd::prelude::*;

use crate::search::federated::{lemma_filter_push, names_view};
use crate::search::types::ResultSource;
use crate::text::str_equals;

verus! {

/// The positions `0..n`.
pub open spec fn positions(n: nat) -> Seq<usize> {
    Seq::new(n, |i: int| i as usize)
}

/// Whether position `i` holds the first occurrence of its key.
pub open spec fn is_first(keys: Seq<Seq<char>>, i: usize) -> bool {
    forall|j: int| 0 <= j < i ==> keys[j] != keys[i as int]
}

/// The positions of the first occurrence of each key, in order.
pub open spec fn first_occurrences(keys: Seq<Seq<char>>) -> Seq<usize> {
    positions(keys.len()).filter(|i: usize| is_first(keys, i))
}

/// The positions that hold `key`, in order.
pub open spec fn positions_of(keys: Seq<Seq<char>>, key: Seq<char>) -> Seq<usize> {
    positions(keys.len()).filter(|i: usize| keys[i as int] == key)
}

/// The groups of positions that share a key: one per distinct key, in order of the key's first
/// occurrence, each listing the key's positions in order.
pub open spec fn key_groups(keys: Seq<Seq<char>>) -> Seq<Seq<usize>> {
    first_occurrences(keys).map_values(|f: usize| positions_of(keys, keys[f as int]))
}

/// The views of a list of position lists.
pub open spec fn groups_view(groups: Seq<Vec<usize>>) -> Seq<Seq<usize>> {
    groups.map_values(|g: Vec<usize>| g@)
}

/// The positions `0..n` with one more at the end.
proof fn lemma_positions_push(n: nat)
    ensures
        positions(n + 1) == positions(n).push(n as usize),
{
    assert(positions(n + 1) =~= positions(n).push(n as usize));
}

/// The positions of `key` among all keys.
fn collect_positions(keys: &Vec<String>, key: &str) -> (r: Vec<usize>)
    ensures
        r@ == positions_of(names_view(keys@), key@),
{
    let ghost kv = names_view(keys@);
    let mut out: Vec<usize> = Vec::new();
    let mut j: usize = 0;
    while j < keys.len()
        invariant
            j <= keys@.len(),
            kv == names_view(keys@),
            out@ == positions(j as nat).filter(|i: usize| kv[i as int] == key@),
        decreases keys@.len() - j,
    {
        proof {
            lemma_positions_push(j as nat);
            lemma_filter_push(positions(j as nat), |i: usize| kv[i as int] == key@, j);
        }
        if str_equals(keys[j].as_str(), key) {
            out.push(j);
        }
        j = j + 1;
    }
    proof {
        assert(kv.len() == keys@.len());
    }
    out
}

/// Whether the key at `i` occurs at no earlier position.
fn first_at(keys: &Vec<String>, i: usize) -> (r: bool)
    requires
        i < keys@.len(),
    ensures
        r == is_first(names_view(keys@), i),
{
    let ghost kv = names_view(keys@);
    let mut j: usize = 0;
    while j < i
        invariant
            j <= i < keys@.len(),
            kv == names_view(keys@),
            forall|k: int| 0 <= k < j ==> kv[k] != kv[i as int],
        decreases i - j,
    {
        if str_equals(keys[j].as_str(), keys[i].as_str()) {
            assert(kv[j as int] == kv[i as int]);
            return false;
        }
        j = j + 1;
    }
    true
}

/// Groups positions by key: one group per distinct key, in order of its first occurrence, each
/// with the key's positions in order.
pub fn group_by_key(keys: &Vec<String>) -> (r: Vec<Vec<usize>>)
    ensures
        groups_view(r@) == key_groups(names_view(keys@)),
{
    let ghost kv = names_view(keys@);
    let mut groups: Vec<Vec<usize>> = Vec::new();
    let mut i: usize = 0;
    while i < keys.len()
        invariant
            i <= keys@.len(),
            kv == names_view(keys@),
            kv.len() == keys@.len(),
            groups_view(groups@) == positions(i as nat).filter(|x: usize| is_first(kv, x)).map_values(
                |f: usize| positions_of(kv, kv[f as int]),
            ),
        decreases keys@.len() - i,
    {
        proof {
            lemma_positions_push(i as nat);
            lemma_filter_push(positions(i as nat), |x: usize| is_first(kv, x), i);
        }
        let ghost before = groups@;
        if first_at(keys, i) {
            let g = collect_positions(keys, keys[i].as_str());
            groups.push(g);
            proof {
                assert(groups_view(groups@) =~= groups_view(before).push(positions_of(kv, kv[i as int])));
            }
        }
        i = i + 1;
    }
    groups
}

/// Whether positions `a` and `b` hold the same key.
pub open spec fn same_key(keys: Seq<Seq<char>>, a: int, b: int) -> bool {
    keys[a] == keys[b]
}

/// Filtering positions keeps them strictly increasing and below the bound.
proof fn lemma_filter_positions(n: nat, p: spec_fn(usize) -> bool)
    requires
        n <= usize::MAX,
    ensures
        forall|a: int, b: int| 0 <= a < b < positions(n).filter(p).len() ==> positions(n).filter(p)[a] < positions(n).filter(p)[b],
        forall|a: int| 0 <= a < positions(n).filter(p).len() ==> positions(n).filter(p)[a] < n,
    decreases n,
{
    if n > 0 {
        let m = (n - 1) as nat;
        lemma_filter_positions(m, p);
        lemma_positions_push(m);
        lemma_filter_push(positions(m), p, m as usize);
        let prev = positions(m).filter(p);
        let cur = positions(n).filter(p);
        if p(m as usize) {
            assert(cur == prev.push(m as usize));
            assert forall|a: int, b: int| 0 <= a < b < cur.len() implies cur[a] < cur[b] by {
                if b < prev.len() {
                    assert(cur[a] == prev[a] && cur[b] == prev[b]);
                } else {
                    assert(cur[a] == prev[a]);
                }
            }
            assert forall|a: int| 0 <= a < cur.len() implies cur[a] < n by {
                if a < prev.len() {
                    assert(cur[a] == prev[a]);
                }
            }
        } else {
            assert(cur == prev);
        }
    } else {
        positions(0).lemma_filter_len(p);
    }
}

/// Every key has a first occurrence, at or before any of its positions.
proof fn lemma_first_exists(keys: Seq<Seq<char>>, i: int) -> (f: usize)
    requires
        0 <= i < keys.len(),
        keys.len() <= usize::MAX,
    ensures
        f <= i,
        is_first(keys, f),
        keys[f as int] == keys[i],
    decreases i,
{
    if is_first(keys, i as usize) {
        i as usize
    } else {
        let j = choose|j: int| 0 <= j < i && keys[j] == keys[i];
        lemma_first_exists(keys, j)
    }
}

/// Grouping by key deduplicates: no two groups share a key, and a group holds only positions
/// of its key.
pub proof fn law_group_by_key_deduplicates(keys: Seq<Seq<char>>)
    requires
        keys.len() <= usize::MAX,
    ensures
        forall|g1: int, g2: int|
            0 <= g1 < g2 < first_occurrences(keys).len() ==> keys[first_occurrences(keys)[g1] as int] != keys[first_occurrences(
                keys,
            )[g2] as int],
        forall|g: int, k: int|
            0 <= g < key_groups(keys).len() && 0 <= k < key_groups(keys)[g].len() ==> key_groups(keys)[g][k] < keys.len()
                && keys[key_groups(keys)[g][k] as int] == keys[first_occurrences(keys)[g] as int],
{
    let n = keys.len();
    let fo = first_occurrences(keys);
    let pf = |x: usize| is_first(keys, x);
    lemma_filter_positions(n, pf);
    assert forall|g1: int, g2: int| 0 <= g1 < g2 < fo.len() implies keys[fo[g1] as int] != keys[fo[g2] as int] by {
        positions(n).lemma_filter_pred(pf, g2);
        assert(fo[g1] < fo[g2]);
    }
    assert forall|g: int, k: int| 0 <= g < key_groups(keys).len() && 0 <= k < key_groups(keys)[g].len() implies key_groups(keys)[g][k] < n
        && keys[key_groups(keys)[g][k] as int] == keys[fo[g] as int] by {
        let pk = |x: usize| keys[x as int] == keys[fo[g] as int];
        assert(key_groups(keys)[g] == positions(n).filter(pk));
        positions(n).lemma_filter_pred(pk, k);
        lemma_filter_positions(n, pk);
    }
}

/// Grouping by key loses no position: each lies in the group of its key, whose index this
/// gives.
pub proof fn law_position_in_its_group(keys: Seq<Seq<char>>, i: int) -> (g: int)
    requires
        keys.len() <= usize::MAX,
        0 <= i < keys.len(),
    ensures
        0 <= g < key_groups(keys).len(),
        same_key(keys, first_occurrences(keys)[g] as int, i),
        key_groups(keys)[g].contains(i as usize),
{
    let n = keys.len();
    let fo = first_occurrences(keys);
    let pf = |x: usize| is_first(keys, x);
    let f = lemma_first_exists(keys, i);
    assert(positions(n)[f as int] == f);
    positions(n).lemma_filter_contains(pf, f as int);
    let g = choose|g: int| 0 <= g < fo.len() && fo[g] == f;
    let pk = |x: usize| keys[x as int] == keys[f as int];
    assert(positions(n)[i] == i as usize);
    positions(n).lemma_filter_contains(pk, i);
    assert(key_groups(keys)[g] == positions_of(keys, keys[f as int]));
    assert(positions_of(keys, keys[f as int]) == positions(n).filter(pk));
    g
}

/// The source a group of results is reported under: local when any of them is local.
pub fn group_source(sources: &[ResultSource]) -> (r: ResultSource)
    ensures
        r == (if exists|k: int| 0 <= k < sources@.len() && sources@[k] == ResultSource::Local {
            ResultSource::Local
        } else {
            ResultSource::Network
        }),
{
    let mut k: usize = 0;
    while k < sources.len()
        invariant
            k <= sources@.len(),
            forall|j: int| 0 <= j < k ==> sources@[j] != ResultSource::Local,
        decreases sources@.len() - k,
    {
        match sources[k] {
            ResultSource::Local => {
                return ResultSource::Local;
            },
            ResultSource::Network => {},
        }
        k = k + 1;
    }
    ResultSource::Network
}

/// How many of `count` results a limit cuts off (truncated to 32 bits, as the count is
/// reported).
pub fn overflow_count(count: usize, limit: u32) -> (r: u32)
    ensures
        r == (if count > limit { (count - limit) as u32 } else { 0u32 }),
{
    if count > limit as usize {
        (count - limit as usize) as u32
    } else {
        0
    }
}

} // verus!
