//! Block placement: each block's last-writer-wins structure intent names its page, its
//! parent block and its order key. Concurrent moves can make parents form a cycle; every
//! such cycle is broken, deterministically, at its most recent intent.

use vstd::prelude::*;
use std::collections::{HashMap, HashSet};
use crate::text::{
    lemma_text_lt_asymmetric, lemma_text_lt_irreflexive, lemma_text_lt_total,
    lemma_text_lt_transitive, str_lt, text_lt,
};

verus! {

broadcast use vstd::std_specs::hash::group_hash_axioms;

/// Where one block should sit, as its latest structure intent says.
#[derive(Debug, Clone)]
pub struct StructureIntent {
    pub page_uuid: u128,
    pub parent_uuid: Option<u128>,
    pub order_key: String,
    pub hlc: String,
}

/// The parent a block's intent names, if it has an intent.
pub open spec fn next(m: Map<u128, StructureIntent>, x: u128) -> Option<u128> {
    if m.contains_key(x) {
        m[x].parent_uuid
    } else {
        None
    }
}

/// Where `n` parent steps from `x` lead, if the chain is that long.
pub open spec fn walk(m: Map<u128, StructureIntent>, x: u128, n: nat) -> Option<u128>
    decreases n,
{
    if n == 0 {
        Some(x)
    } else {
        match walk(m, x, (n - 1) as nat) {
            Some(y) => next(m, y),
            None => None,
        }
    }
}

/// `x` is its own ancestor.
pub open spec fn on_cycle(m: Map<u128, StructureIntent>, x: u128) -> bool {
    exists|n: nat| n >= 1 && #[trigger] walk(m, x, n) == Some(x)
}

/// `y` is `x` or one of its ancestors.
pub open spec fn reaches(m: Map<u128, StructureIntent>, x: u128, y: u128) -> bool {
    exists|n: nat| #[trigger] walk(m, x, n) == Some(y)
}

/// Intents are ordered by clock text, then by block UUID.
pub open spec fn key_le(m: Map<u128, StructureIntent>, y: u128, x: u128) -> bool {
    ||| text_lt(m[y].hlc@, m[x].hlc@)
    ||| (m[y].hlc@ == m[x].hlc@ && y <= x)
}

/// `x` lies on a cycle and carries the greatest intent of it.
pub open spec fn cycle_leader(m: Map<u128, StructureIntent>, x: u128) -> bool {
    &&& on_cycle(m, x)
    &&& forall|y: u128| #[trigger] reaches(m, x, y) ==> key_le(m, y, x)
}

/// No block is its own ancestor.
pub open spec fn acyclic(m: Map<u128, StructureIntent>) -> bool {
    forall|x: u128| !#[trigger] on_cycle(m, x)
}

pub open spec fn detached(i: StructureIntent) -> StructureIntent {
    StructureIntent { parent_uuid: None, ..i }
}

/// `new` is `old` with the parent dropped from the leader of every cycle, and nothing else.
pub open spec fn cycles_broken(old: Map<u128, StructureIntent>, new: Map<u128, StructureIntent>) -> bool {
    &&& new.dom() == old.dom()
    &&& forall|x: u128|
        #[trigger] old.contains_key(x) ==> new[x] == if cycle_leader(old, x) {
            detached(old[x])
        } else {
            old[x]
        }
}

// ---------------------------------------------------------------------------------------------
// Walks

pub proof fn lemma_walk_add(m: Map<u128, StructureIntent>, x: u128, a: nat, b: nat)
    ensures
        walk(m, x, a + b) == match walk(m, x, a) {
            Some(y) => walk(m, y, b),
            None => None,
        },
    decreases b,
{
    if b > 0 {
        lemma_walk_add(m, x, a, (b - 1) as nat);
        assert((a + b - 1) as nat == a + (b - 1) as nat);
        match walk(m, x, a) {
            Some(y) => {},
            None => {},
        }
    }
}

pub proof fn lemma_walk_one(m: Map<u128, StructureIntent>, x: u128)
    ensures
        walk(m, x, 1) == next(m, x),
{
    assert(walk(m, x, 0) == Some(x));
}

proof fn lemma_cycle_repeat(m: Map<u128, StructureIntent>, x: u128, l: nat, t: nat)
    requires
        walk(m, x, l) == Some(x),
    ensures
        walk(m, x, l * t) == Some(x),
    decreases t,
{
    if t == 0 {
        assert(l * t == 0) by (nonlinear_arith)
            requires
                t == 0,
        ;
    } else {
        lemma_cycle_repeat(m, x, l, (t - 1) as nat);
        assert(l * t == l * (t - 1) as nat + l) by (nonlinear_arith)
            requires
                t > 0,
        ;
        lemma_walk_add(m, x, l * (t - 1) as nat, l);
    }
}

/// Whatever a cycle member reaches lies on the same cycle and leads back to it.
pub proof fn lemma_cycle_reach(m: Map<u128, StructureIntent>, x: u128, y: u128, n: nat)
    requires
        on_cycle(m, x),
        walk(m, x, n) == Some(y),
    ensures
        on_cycle(m, y),
        reaches(m, y, x),
{
    let l = choose|l: nat| l >= 1 && #[trigger] walk(m, x, l) == Some(x);
    lemma_cycle_repeat(m, x, l, n + 1);
    assert(l * (n + 1) >= n + 1) by (nonlinear_arith)
        requires
            l >= 1,
    ;
    let k = (l * (n + 1) - n) as nat;
    assert(k >= 1);
    lemma_walk_add(m, x, n, k);
    assert(n + k == l * (n + 1));
    assert(walk(m, y, k) == Some(x));
    lemma_walk_add(m, y, k, n);
    assert(walk(m, y, k + n) == Some(y));
}


/// The blocks that have an intent.
fn intent_keys(m: &HashMap<u128, StructureIntent>) -> (v: Vec<u128>)
    ensures
        forall|x: u128| m@.contains_key(x) <==> v@.contains(x),
{
    let mut v: Vec<u128> = Vec::new();
    for k in it: m.keys()
        invariant
            v@ == it.seq().unref().take(it.index() as int),
            it.seq().unref().to_set() == m@.dom(),
            it.index() == it.seq().len() ==> v@.to_set() == m@.dom(),
    {
        assert(it.seq().unref().take(it.index() + 1) =~= it.seq().unref().take(
            it.index() as int,
        ).push(*k));
        assert(it.index() + 1 == it.seq().len() ==> it.seq().unref().take(it.index() + 1)
            =~= it.seq().unref());
        v.push(*k);
    }
    assert(v@.to_set() == m@.dom());
    assert forall|x: u128| m@.contains_key(x) <==> v@.contains(x) by {
        assert(v@.to_set().contains(x) <==> v@.contains(x));
    }
    v
}


// ---------------------------------------------------------------------------------------------
// The order of intents

proof fn lemma_key_total(m: Map<u128, StructureIntent>, x: u128, y: u128)
    ensures
        key_le(m, x, y) || key_le(m, y, x),
{
    lemma_text_lt_total(m[x].hlc@, m[y].hlc@);
}

proof fn lemma_key_antisymmetric(m: Map<u128, StructureIntent>, x: u128, y: u128)
    requires
        key_le(m, x, y),
        key_le(m, y, x),
    ensures
        x == y,
{
    lemma_text_lt_asymmetric(m[x].hlc@, m[y].hlc@);
    lemma_text_lt_irreflexive(m[x].hlc@);
    lemma_text_lt_irreflexive(m[y].hlc@);
}

proof fn lemma_key_transitive(m: Map<u128, StructureIntent>, x: u128, y: u128, z: u128)
    requires
        key_le(m, x, y),
        key_le(m, y, z),
    ensures
        key_le(m, x, z),
{
    if text_lt(m[x].hlc@, m[y].hlc@) && text_lt(m[y].hlc@, m[z].hlc@) {
        lemma_text_lt_transitive(m[x].hlc@, m[y].hlc@, m[z].hlc@);
    }
}

// ---------------------------------------------------------------------------------------------
// Paths of parent steps

/// Each element of `p` is the parent of the one before it.
pub open spec fn chain(o: Map<u128, StructureIntent>, p: Seq<u128>) -> bool {
    forall|i: int| 0 <= i < p.len() - 1 ==> next(o, #[trigger] p[i]) == Some(p[i + 1])
}

proof fn lemma_chain_walk(o: Map<u128, StructureIntent>, p: Seq<u128>, i: int, k: nat)
    requires
        chain(o, p),
        0 <= i,
        i + k < p.len(),
    ensures
        walk(o, p[i], k) == Some(p[i + k]),
    decreases k,
{
    if k > 0 {
        lemma_chain_walk(o, p, i, (k - 1) as nat);
        assert(next(o, p[i + k - 1]) == Some(p[i + k]));
    }
}

/// A path that ends where the chain stops, or at a settled block, meets no cycle.
proof fn lemma_open_path(
    o: Map<u128, StructureIntent>,
    done: Set<u128>,
    p: Seq<u128>,
    cursor: Option<u128>,
)
    requires
        closed_cycles(o, done),
        chain(o, p),
        p.len() > 0,
        next(o, p.last()) == cursor,
        cursor is None || done.contains(cursor->0),
        p.no_duplicates(),
        forall|i: int| 0 <= i < p.len() ==> !done.contains(#[trigger] p[i]),
    ensures
        forall|i: int| 0 <= i < p.len() ==> !on_cycle(o, #[trigger] p[i]),
{
    assert forall|i: int| 0 <= i < p.len() implies !on_cycle(o, #[trigger] p[i]) by {
        if on_cycle(o, p[i]) {
            let l = choose|l: nat| l >= 1 && #[trigger] walk(o, p[i], l) == Some(p[i]);
            if i + l < p.len() {
                lemma_chain_walk(o, p, i, l);
                assert(p[i + l] == p[i]);
            } else {
                let a = (p.len() - 1 - i) as nat;
                lemma_chain_walk(o, p, i, a);
                lemma_walk_add(o, p[i], a, 1);
                lemma_walk_one(o, p.last());
                assert(walk(o, p[i], a + 1) == cursor);
                lemma_walk_add(o, p[i], a + 1, (l - a - 1) as nat);
                match cursor {
                    Some(d) => {
                        lemma_cycle_reach(o, p[i], d, a + 1);
                        assert(reaches(o, d, p[i]));
                        assert(done.contains(p[i]));
                    },
                    None => {},
                }
            }
        }
    }
}

/// Where a walk from a path that closes on its own element `idx` can go.
proof fn lemma_closed_walk(o: Map<u128, StructureIntent>, p: Seq<u128>, idx: int, s: int, n: nat)
    requires
        chain(o, p),
        0 <= idx < p.len(),
        next(o, p.last()) == Some(p[idx]),
        0 <= s < p.len(),
    ensures
        exists|q: int|
            0 <= q < p.len() && walk(o, p[s], n) == Some(#[trigger] p[q]) && (s >= idx ==> q
                >= idx) && (n >= 1 ==> q > s || q >= idx),
    decreases n,
{
    if n == 0 {
        assert(walk(o, p[s], 0) == Some(p[s]));
    } else {
        lemma_closed_walk(o, p, idx, s, (n - 1) as nat);
        let q = choose|q: int|
            0 <= q < p.len() && walk(o, p[s], (n - 1) as nat) == Some(#[trigger] p[q]) && (s
                >= idx ==> q >= idx) && ((n - 1) as nat >= 1 ==> q > s || q >= idx);
        if q < p.len() - 1 {
            assert(next(o, p[q]) == Some(p[q + 1]));
            assert(walk(o, p[s], n) == Some(p[q + 1]));
        } else {
            assert(walk(o, p[s], n) == Some(p[idx]));
        }
    }
}

/// On a path closing on `idx`, every element from `idx` on reaches every other.
proof fn lemma_closed_reach(o: Map<u128, StructureIntent>, p: Seq<u128>, idx: int, j: int, t: int)
    requires
        chain(o, p),
        0 <= idx < p.len(),
        next(o, p.last()) == Some(p[idx]),
        idx <= j < p.len(),
        idx <= t < p.len(),
    ensures
        reaches(o, p[j], p[t]),
        on_cycle(o, p[j]),
{
    let a = (p.len() - 1 - j) as nat;
    lemma_chain_walk(o, p, j, a);
    lemma_walk_add(o, p[j], a, 1);
    lemma_walk_one(o, p.last());
    assert(walk(o, p[j], a + 1) == Some(p[idx]));
    if t >= j {
        lemma_chain_walk(o, p, j, (t - j) as nat);
    } else {
        lemma_chain_walk(o, p, idx, (t - idx) as nat);
        lemma_walk_add(o, p[j], a + 1, (t - idx) as nat);
    }
    lemma_chain_walk(o, p, idx, (j - idx) as nat);
    lemma_walk_add(o, p[j], a + 1, (j - idx) as nat);
    assert(walk(o, p[j], (a + 1 + (j - idx)) as nat) == Some(p[j]));
}

// ---------------------------------------------------------------------------------------------
// The invariant of the walk over all blocks

/// Every cycle is wholly settled or wholly unsettled.
pub open spec fn closed_cycles(o: Map<u128, StructureIntent>, done: Set<u128>) -> bool {
    forall|x: u128, y: u128|
        #![trigger done.contains(x), reaches(o, x, y)]
        done.contains(x) && on_cycle(o, x) && reaches(o, x, y) ==> done.contains(y)
}

/// Settled blocks have ancestors of strictly smaller rank, all settled.
pub open spec fn ranked(m: Map<u128, StructureIntent>, done: Set<u128>, rank: Map<u128, nat>) -> bool {
    forall|x: u128|
        #[trigger] done.contains(x) ==> rank.contains_key(x) && match next(m, x) {
            Some(y) => done.contains(y) && rank[y] < rank[x],
            None => true,
        }
}

/// Settled leaders are detached; everything else is as it was.
pub open spec fn settled(o: Map<u128, StructureIntent>, m: Map<u128, StructureIntent>, done: Set<u128>) -> bool {
    &&& m.dom() == o.dom()
    &&& forall|x: u128|
        #[trigger] o.contains_key(x) ==> m[x] == if done.contains(x) && cycle_leader(o, x) {
            detached(o[x])
        } else {
            o[x]
        }
}

proof fn lemma_rank_walk(
    m: Map<u128, StructureIntent>,
    done: Set<u128>,
    rank: Map<u128, nat>,
    x: u128,
    n: nat,
)
    requires
        ranked(m, done, rank),
        done.contains(x),
    ensures
        match walk(m, x, n) {
            Some(y) => done.contains(y) && (n >= 1 ==> rank[y] < rank[x]),
            None => true,
        },
    decreases n,
{
    if n > 0 {
        lemma_rank_walk(m, done, rank, x, (n - 1) as nat);
        match walk(m, x, (n - 1) as nat) {
            Some(z) => {
                assert(done.contains(z));
            },
            None => {},
        }
    }
}

proof fn lemma_ranked_acyclic(m: Map<u128, StructureIntent>, done: Set<u128>, rank: Map<u128, nat>)
    requires
        ranked(m, done, rank),
        forall|x: u128| #[trigger] m.contains_key(x) ==> done.contains(x),
    ensures
        acyclic(m),
{
    assert forall|x: u128| !#[trigger] on_cycle(m, x) by {
        if on_cycle(m, x) {
            let l = choose|l: nat| l >= 1 && #[trigger] walk(m, x, l) == Some(x);
            if done.contains(x) {
                lemma_rank_walk(m, done, rank, x, l);
            } else {
                lemma_walk_one(m, x);
                lemma_walk_add(m, x, 1, (l - 1) as nat);
            }
        }
    }
}


proof fn lemma_settle_open(
    o: Map<u128, StructureIntent>,
    m: Map<u128, StructureIntent>,
    done: Set<u128>,
    rank: Map<u128, nat>,
    path: Seq<u128>,
    pos: Map<u128, usize>,
    cursor: Option<u128>,
) -> (rank2: Map<u128, nat>)
    requires
        settled(o, m, done),
        ranked(m, done, rank),
        closed_cycles(o, done),
        chain(o, path),
        path.len() > 0,
        next(o, path.last()) == cursor,
        cursor is None || done.contains(cursor->0),
        path.no_duplicates(),
        forall|i: int| 0 <= i < path.len() ==> !done.contains(#[trigger] path[i]),
        forall|i: int|
            0 <= i < path.len() ==> pos.contains_key(#[trigger] path[i]) && pos[path[i]] == i,
    ensures
        settled(o, m, done.union(path.to_set())),
        ranked(m, done.union(path.to_set()), rank2),
        closed_cycles(o, done.union(path.to_set())),
{
    lemma_open_path(o, done, path, cursor);
    let base: nat = match cursor {
        Some(d) => rank[d] + 1,
        None => 0,
    };
    let done2 = done.union(path.to_set());
    let rank2 = Map::new(
        |x: u128| done.contains(x) || path.contains(x),
        |x: u128|
            if done.contains(x) {
                rank[x]
            } else {
                (base + path.len() - 1 - pos[x]) as nat
            },
    );
    assert forall|x: u128| #[trigger] o.contains_key(x) implies m[x] == if done2.contains(x)
        && cycle_leader(o, x) {
        detached(o[x])
    } else {
        o[x]
    } by {
        if path.contains(x) && !done.contains(x) {
            let i = choose|i: int| 0 <= i < path.len() && path[i] == x;
            assert(!on_cycle(o, path[i]));
        }
    }
    assert forall|x: u128| #[trigger] done2.contains(x) implies rank2.contains_key(x) && match next(
        m,
        x,
    ) {
        Some(y) => done2.contains(y) && rank2[y] < rank2[x],
        None => true,
    } by {
        if done.contains(x) {
            assert(done.contains(x));
        } else {
            assert(path.to_set().contains(x));
            let i = choose|i: int| 0 <= i < path.len() && path[i] == x;
            assert(pos[x] == i);
            assert(next(m, x) == next(o, x));
            if i < path.len() - 1 {
                assert(next(o, path[i]) == Some(path[i + 1]));
                assert(!done.contains(path[i + 1]));
                assert(path.contains(path[i + 1]));
                assert(pos[path[i + 1]] == i + 1);
            } else {
                assert(x == path.last());
            }
        }
    }
    assert forall|x: u128, y: u128|
        #![trigger done2.contains(x), reaches(o, x, y)]
        done2.contains(x) && on_cycle(o, x) && reaches(o, x, y) implies done2.contains(y) by {
        if !done.contains(x) {
            let i = choose|i: int| 0 <= i < path.len() && path[i] == x;
            assert(!on_cycle(o, path[i]));
        }
    }
    rank2
}

proof fn lemma_settle_cycle(
    o: Map<u128, StructureIntent>,
    m: Map<u128, StructureIntent>,
    done: Set<u128>,
    rank: Map<u128, nat>,
    path: Seq<u128>,
    pos: Map<u128, usize>,
    idx: int,
    t: int,
) -> (rank2: Map<u128, nat>)
    requires
        settled(o, m, done),
        ranked(m, done, rank),
        closed_cycles(o, done),
        chain(o, path),
        0 <= idx <= t < path.len(),
        next(o, path.last()) == Some(path[idx]),
        forall|q: int| idx <= q < path.len() ==> key_le(o, #[trigger] path[q], path[t]),
        path.no_duplicates(),
        forall|i: int| 0 <= i < path.len() ==> !done.contains(#[trigger] path[i]),
        forall|i: int| 0 <= i < path.len() ==> o.contains_key(#[trigger] path[i]),
        forall|i: int|
            0 <= i < path.len() ==> pos.contains_key(#[trigger] path[i]) && pos[path[i]] == i,
    ensures
        settled(o, m.insert(path[t], detached(o[path[t]])), done.union(path.to_set())),
        ranked(m.insert(path[t], detached(o[path[t]])), done.union(path.to_set()), rank2),
        closed_cycles(o, done.union(path.to_set())),
        cycle_leader(o, path[t]),
{
    let d = path[t];
    let m2 = m.insert(d, detached(o[d]));
    let done2 = done.union(path.to_set());
    let len = path.len();
    // The closing part of the path is one cycle, led by `d`.
    lemma_closed_reach(o, path, idx, t, t);
    assert forall|y: u128| #[trigger] reaches(o, d, y) implies key_le(o, y, d) by {
        let n = choose|n: nat| #[trigger] walk(o, d, n) == Some(y);
        lemma_closed_walk(o, path, idx, t, n);
        let q = choose|q: int|
            0 <= q < path.len() && walk(o, path[t], n) == Some(#[trigger] path[q]) && (t >= idx
                ==> q >= idx) && (n >= 1 ==> q > t || q >= idx);
        assert(key_le(o, path[q], path[t]));
    }
    assert(cycle_leader(o, d));
    // The other elements of the path lead nowhere else, or are outranked by `d`.
    assert forall|i: int| 0 <= i < len && i != t implies !cycle_leader(o, #[trigger] path[i]) by {
        if i < idx {
            if on_cycle(o, path[i]) {
                let l = choose|l: nat| l >= 1 && #[trigger] walk(o, path[i], l) == Some(path[i]);
                lemma_closed_walk(o, path, idx, i, l);
                let q = choose|q: int|
                    0 <= q < path.len() && walk(o, path[i], l) == Some(#[trigger] path[q]) && (i
                        >= idx ==> q >= idx) && (l >= 1 ==> q > i || q >= idx);
                assert(path[q] == path[i]);
            }
        } else {
            lemma_closed_reach(o, path, idx, i, t);
            if cycle_leader(o, path[i]) {
                assert(key_le(o, d, path[i]));
                lemma_key_antisymmetric(o, d, path[i]);
            }
        }
    }
    let rank2 = Map::new(
        |x: u128| done.contains(x) || path.contains(x),
        |x: u128|
            if done.contains(x) {
                rank[x]
            } else if pos[x] <= t {
                (t - pos[x]) as nat
            } else {
                (len - pos[x] + t - idx) as nat
            },
    );
    assert(m2.dom() == o.dom());
    assert forall|x: u128| #[trigger] o.contains_key(x) implies m2[x] == if done2.contains(x)
        && cycle_leader(o, x) {
        detached(o[x])
    } else {
        o[x]
    } by {
        if x != d && path.contains(x) && !done.contains(x) {
            let i = choose|i: int| 0 <= i < path.len() && path[i] == x;
            assert(!cycle_leader(o, path[i]));
        }
    }
    assert forall|x: u128| #[trigger] done2.contains(x) implies rank2.contains_key(x) && match next(
        m2,
        x,
    ) {
        Some(y) => done2.contains(y) && rank2[y] < rank2[x],
        None => true,
    } by {
        if done.contains(x) {
            assert(x != d);
            assert(next(m2, x) == next(m, x));
        } else {
            assert(path.to_set().contains(x));
            let i = choose|i: int| 0 <= i < path.len() && path[i] == x;
            assert(pos[x] == i);
            if i != t {
                assert(next(m2, x) == next(o, x));
                if i < len - 1 {
                    assert(next(o, path[i]) == Some(path[i + 1]));
                    assert(!done.contains(path[i + 1]));
                    assert(path.contains(path[i + 1]));
                    assert(pos[path[i + 1]] == i + 1);
                } else {
                    assert(x == path.last());
                    assert(!done.contains(path[idx]));
                    assert(path.contains(path[idx]));
                    assert(pos[path[idx]] == idx);
                }
            }
        }
    }
    assert forall|x: u128, y: u128|
        #![trigger done2.contains(x), reaches(o, x, y)]
        done2.contains(x) && on_cycle(o, x) && reaches(o, x, y) implies done2.contains(y) by {
        if !done.contains(x) {
            let i = choose|i: int| 0 <= i < path.len() && path[i] == x;
            let n = choose|n: nat| #[trigger] walk(o, x, n) == Some(y);
            if i < idx {
                let l = choose|l: nat| l >= 1 && #[trigger] walk(o, path[i], l) == Some(path[i]);
                lemma_closed_walk(o, path, idx, i, l);
                let q = choose|q: int|
                    0 <= q < path.len() && walk(o, path[i], l) == Some(#[trigger] path[q]) && (i
                        >= idx ==> q >= idx) && (l >= 1 ==> q > i || q >= idx);
                assert(path[q] == path[i]);
            } else {
                lemma_closed_walk(o, path, idx, i, n);
                let q = choose|q: int|
                    0 <= q < path.len() && walk(o, path[i], n) == Some(#[trigger] path[q]) && (i
                        >= idx ==> q >= idx) && (n >= 1 ==> q > i || q >= idx);
                assert(path.to_set().contains(path[q]));
            }
        }
    }
    rank2
}


/// `key_le(m, a, b)` for two blocks that have intents.
fn intent_key_le(intents: &HashMap<u128, StructureIntent>, a: u128, b: u128) -> (r: bool)
    requires
        intents@.contains_key(a),
        intents@.contains_key(b),
    ensures
        r == key_le(intents@, a, b),
{
    let x = intents.get(&a).unwrap();
    let y = intents.get(&b).unwrap();
    str_lt(x.hlc.as_str(), y.hlc.as_str()) || (x.hlc == y.hlc && a <= b)
}

/// Breaks every cycle among the intents' parents by detaching its most recent intent:
/// the member with the greatest clock, ties going to the greater UUID. Nothing else
/// changes, and no block is left its own ancestor.
pub fn break_structure_cycles(intents: &mut HashMap<u128, StructureIntent>)
    ensures
        cycles_broken(old(intents)@, final(intents)@),
        acyclic(final(intents)@),
{
    let ghost o = intents@;
    let starts = intent_keys(intents);
    let mut done: HashSet<u128> = HashSet::new();
    let ghost mut rank: Map<u128, nat> = Map::empty();
    let mut k: usize = 0;
    while k < starts.len()
        invariant
            o == old(intents)@,
            o.dom().finite(),
            forall|x: u128| o.contains_key(x) <==> starts@.contains(x),
            k <= starts@.len(),
            forall|j: int| 0 <= j < k ==> done@.contains(#[trigger] starts@[j]),
            settled(o, intents@, done@),
            ranked(intents@, done@, rank),
            closed_cycles(o, done@),
        decreases starts@.len() - k,
    {
        let start = starts[k];
        assert(o.contains_key(start));
        if !done.contains(&start) {
            let mut path: Vec<u128> = Vec::new();
            let mut positions: HashMap<u128, usize> = HashMap::new();
            let mut cursor: Option<u128> = Some(start);
            let mut cycle_start: Option<usize> = None;
            loop
                invariant_except_break
                    cycle_start is None,
                invariant
                    o.dom().finite(),
                    settled(o, intents@, done@),
                    o.contains_key(start),
                    !done@.contains(start),
                    path@.no_duplicates(),
                    forall|i: int| 0 <= i < path@.len() ==> !done@.contains(#[trigger] path@[i]),
                    forall|i: int|
                        0 <= i < path@.len() ==> positions@.contains_key(#[trigger] path@[i])
                            && positions@[path@[i]] == i,
                    forall|x: u128| #[trigger] positions@.contains_key(x) ==> path@.contains(x),
                    chain(o, path@),
                    path@.len() == 0 ==> cursor == Some(start),
                    path@.len() > 0 ==> path@[0] == start && cursor == next(o, path@.last()),
                    cursor is Some ==> forall|i: int|
                        0 <= i < path@.len() ==> o.contains_key(#[trigger] path@[i]),
                    path@.len() <= o.dom().len() + 1,
                ensures
                    path@.len() > 0,
                    path@.no_duplicates(),
                    forall|i: int| 0 <= i < path@.len() ==> !done@.contains(#[trigger] path@[i]),
                    forall|i: int|
                        0 <= i < path@.len() ==> positions@.contains_key(#[trigger] path@[i])
                            && positions@[path@[i]] == i,
                    chain(o, path@),
                    cursor == next(o, path@.last()),
                    cursor is Some ==> forall|i: int|
                        0 <= i < path@.len() ==> o.contains_key(#[trigger] path@[i]),
                    match cycle_start {
                        Some(i) => i < path@.len() && cursor == Some(path@[i as int]),
                        None => cursor is None || done@.contains(cursor->0),
                    },
                decreases o.dom().len() + 1 - path@.len(),
            {
                match cursor {
                    None => {
                        break;
                    },
                    Some(u) => {
                        if done.contains(&u) {
                            break;
                        }
                        match positions.get(&u) {
                            Some(i) => {
                                assert(path@.contains(u));
                                cycle_start = Some(*i);
                                break;
                            },
                            None => {},
                        }
                        proof {
                            assert(path@.to_set().subset_of(o.dom()));
                            path@.unique_seq_to_set();
                            vstd::set_lib::lemma_len_subset(path@.to_set(), o.dom());
                            assert(!path@.contains(u));
                        }
                        let ghost old_path = path@;
                        positions.insert(u, path.len());
                        path.push(u);
                        proof {
                            assert(path@.no_duplicates()) by {
                                assert forall|a: int, b: int|
                                    0 <= a < b < path@.len() implies path@[a] != path@[b] by {
                                    if b == path@.len() - 1 {
                                        assert(old_path.contains(path@[a]));
                                    }
                                }
                            }
                            assert forall|x: u128| #[trigger]
                                positions@.contains_key(x) implies path@.contains(x) by {
                                if x != u {
                                    assert(old_path.contains(x));
                                    let j = choose|j: int| 0 <= j < old_path.len() && old_path[j] == x;
                                    assert(path@[j] == x);
                                } else {
                                    assert(path@[path@.len() - 1] == u);
                                }
                            }
                        }
                        cursor = match intents.get(&u) {
                            Some(intent) => intent.parent_uuid,
                            None => None,
                        };
                        assert(next(intents@, u) == next(o, u));
                    },
                }
            }
            match cycle_start {
                None => {
                    proof {
                        rank = lemma_settle_open(
                            o,
                            intents@,
                            done@,
                            rank,
                            path@,
                            positions@,
                            cursor,
                        );
                    }
                },
                Some(idx) => {
                    let mut best: usize = idx;
                    let mut j: usize = idx + 1;
                    while j < path.len()
                        invariant
                            settled(o, intents@, done@),
                            idx <= best < j <= path@.len(),
                            forall|i: int| 0 <= i < path@.len() ==> o.contains_key(#[trigger] path@[i]),
                            forall|i: int| 0 <= i < path@.len() ==> !done@.contains(#[trigger] path@[i]),
                            forall|q: int| idx <= q < j ==> key_le(o, #[trigger] path@[q], path@[best as int]),
                        decreases path@.len() - j,
                    {
                        assert(intents@[path@[j as int]] == o[path@[j as int]]);
                        assert(intents@[path@[best as int]] == o[path@[best as int]]);
                        if intent_key_le(intents, path[best], path[j]) {
                            proof {
                                assert forall|q: int| idx <= q < j + 1 implies key_le(
                                    o,
                                    #[trigger] path@[q],
                                    path@[j as int],
                                ) by {
                                    if q < j {
                                        lemma_key_transitive(o, path@[q], path@[best as int], path@[j as int]);
                                    } else {
                                        lemma_key_total(o, path@[q], path@[q]);
                                    }
                                }
                            }
                            best = j;
                        } else {
                            proof {
                                lemma_key_total(o, path@[j as int], path@[best as int]);
                            }
                        }
                        j = j + 1;
                    }
                    let detach = path[best];
                    let ghost before = intents@;
                    proof {
                        rank = lemma_settle_cycle(
                            o,
                            intents@,
                            done@,
                            rank,
                            path@,
                            positions@,
                            idx as int,
                            best as int,
                        );
                    }
                    let mut intent = intents.remove(&detach).unwrap();
                    assert(intent == o[detach]);
                    intent.parent_uuid = None;
                    intents.insert(detach, intent);
                    assert(intents@ =~= before.insert(detach, detached(o[detach])));
                },
            }
            let ghost done_before = done@;
            let mut i: usize = 0;
            while i < path.len()
                invariant
                    i <= path@.len(),
                    done@ == done_before.union(path@.take(i as int).to_set()),
                decreases path@.len() - i,
            {
                done.insert(path[i]);
                assert(path@.take(i + 1) =~= path@.take(i as int).push(path@[i as int]));
                proof {
                    path@.take(i as int).lemma_push_to_set_commute(path@[i as int]);
                }
                i = i + 1;
            }
            assert(path@.take(path@.len() as int) =~= path@);
            assert(done@.contains(start)) by {
                assert(path@[0] == start);
                assert(path@.to_set().contains(start));
            }
        }
        assert forall|j: int| 0 <= j < k + 1 implies done@.contains(#[trigger] starts@[j]) by {}
        k = k + 1;
    }
    proof {
        assert forall|x: u128| #[trigger] intents@.contains_key(x) implies done@.contains(x) by {
            assert(starts@.contains(x));
            let j = choose|j: int| 0 <= j < starts@.len() && starts@[j] == x;
            assert(done@.contains(starts@[j]));
        }
        lemma_ranked_acyclic(intents@, done@, rank);
    }
}


// ---------------------------------------------------------------------------------------------
// Reconciling placements

/// What a block's row currently says about its placement and lifetime.
#[derive(Debug, Clone)]
pub struct StructureRow {
    pub existence_hlc: String,
    pub page_uuid: u128,
    pub parent_uuid: Option<u128>,
    pub order_key: String,
    pub structure_hlc: Option<String>,
    pub updated_at: i64,
}

impl StructureIntent {
    /// A copy of this intent.
    pub fn copy(&self) -> (r: StructureIntent)
        ensures
            r == *self,
    {
        StructureIntent {
            page_uuid: self.page_uuid,
            parent_uuid: self.parent_uuid,
            order_key: self.order_key.clone(),
            hlc: self.hlc.clone(),
        }
    }
}

/// The intents that can be applied: those of existing blocks that target an existing page.
pub open spec fn placeable(
    rows: Map<u128, StructureRow>,
    pages: Set<u128>,
    intents: Map<u128, StructureIntent>,
) -> Map<u128, StructureIntent> {
    Map::new(
        |x: u128| intents.contains_key(x) && rows.contains_key(x) && pages.contains(intents[x].page_uuid),
        |x: u128| intents[x],
    )
}

/// A parent is kept only if it exists, is placed on the same page, and already existed
/// when the intent was written.
pub open spec fn parent_valid(
    rows: Map<u128, StructureRow>,
    f: Map<u128, StructureIntent>,
    x: u128,
) -> bool {
    match f[x].parent_uuid {
        Some(p) => rows.contains_key(p) && f.contains_key(p) && f[p].page_uuid == f[x].page_uuid
            && !text_lt(f[x].hlc@, rows[p].existence_hlc@),
        None => true,
    }
}

pub open spec fn with_valid_parents(
    rows: Map<u128, StructureRow>,
    f: Map<u128, StructureIntent>,
) -> Map<u128, StructureIntent> {
    Map::new(
        |x: u128| f.contains_key(x),
        |x: u128|
            if parent_valid(rows, f, x) {
                f[x]
            } else {
                detached(f[x])
            },
    )
}

/// A planned placement places only blocks that exist, have an intent and target an
/// existing page; it keeps each intent, at most without its parent; and every parent it
/// keeps exists, is planned on the same page as its child, and existed when the child's
/// intent was written.
pub proof fn lemma_planned_placement(
    rows: Map<u128, StructureRow>,
    pages: Set<u128>,
    intents: Map<u128, StructureIntent>,
    r: Map<u128, StructureIntent>,
)
    requires
        cycles_broken(with_valid_parents(rows, placeable(rows, pages, intents)), r),
    ensures
        forall|x: u128|
            #[trigger] r.contains_key(x) <==> (intents.contains_key(x) && rows.contains_key(x)
                && pages.contains(intents[x].page_uuid)),
        forall|x: u128|
            #[trigger] r.contains_key(x) ==> (r[x] == intents[x] || r[x] == detached(intents[x])),
        forall|x: u128|
            #[trigger] r.contains_key(x) && r[x].parent_uuid is Some ==> {
                let p = r[x].parent_uuid->0;
                &&& r.contains_key(p)
                &&& r[p].page_uuid == r[x].page_uuid
                &&& rows.contains_key(p)
                &&& !text_lt(r[x].hlc@, rows[p].existence_hlc@)
            },
{
    let f = placeable(rows, pages, intents);
    let g = with_valid_parents(rows, f);
    assert forall|x: u128| #[trigger] r.contains_key(x) <==> (intents.contains_key(x)
        && rows.contains_key(x) && pages.contains(intents[x].page_uuid)) by {
        assert(r.dom().contains(x) == g.dom().contains(x));
    }
    assert forall|x: u128| #[trigger] r.contains_key(x) implies (r[x] == intents[x] || r[x]
        == detached(intents[x])) by {
        assert(g.contains_key(x));
    }
    assert forall|x: u128|
        #[trigger] r.contains_key(x) && r[x].parent_uuid is Some implies {
            let p = r[x].parent_uuid->0;
            &&& r.contains_key(p)
            &&& r[p].page_uuid == r[x].page_uuid
            &&& rows.contains_key(p)
            &&& !text_lt(r[x].hlc@, rows[p].existence_hlc@)
        } by {
        let p = r[x].parent_uuid->0;
        assert(g.contains_key(x));
        assert(g[x].parent_uuid == Some(p));
        assert(parent_valid(rows, f, x));
        assert(g.contains_key(p));
    }
}

/// The placement every block should have: the applicable intents, with invalid parents
/// dropped and every remaining cycle broken at its most recent intent.
pub fn plan_structure(
    rows: &HashMap<u128, StructureRow>,
    pages: &HashSet<u128>,
    intents: &HashMap<u128, StructureIntent>,
) -> (r: HashMap<u128, StructureIntent>)
    ensures
        cycles_broken(with_valid_parents(rows@, placeable(rows@, pages@, intents@)), r@),
        acyclic(r@),
        forall|x: u128|
            #[trigger] r@.contains_key(x) <==> (intents@.contains_key(x) && rows@.contains_key(x)
                && pages@.contains(intents@[x].page_uuid)),
        forall|x: u128|
            #[trigger] r@.contains_key(x) ==> (r@[x] == intents@[x] || r@[x] == detached(
                intents@[x],
            )),
        forall|x: u128|
            #[trigger] r@.contains_key(x) && r@[x].parent_uuid is Some ==> {
                let p = r@[x].parent_uuid->0;
                &&& r@.contains_key(p)
                &&& r@[p].page_uuid == r@[x].page_uuid
                &&& rows@.contains_key(p)
                &&& !text_lt(r@[x].hlc@, rows@[p].existence_hlc@)
            },
{
    let keys = intent_keys(intents);
    let ghost f = placeable(rows@, pages@, intents@);
    let mut filtered: HashMap<u128, StructureIntent> = HashMap::new();
    let mut i: usize = 0;
    while i < keys.len()
        invariant
            f == placeable(rows@, pages@, intents@),
            forall|x: u128| intents@.contains_key(x) <==> keys@.contains(x),
            i <= keys@.len(),
            forall|x: u128|
                #[trigger] filtered@.contains_key(x) <==> (f.contains_key(x) && exists|q: int|
                    0 <= q < i && #[trigger] keys@[q] == x),
            forall|x: u128| #[trigger] filtered@.contains_key(x) ==> filtered@[x] == f[x],
        decreases keys@.len() - i,
    {
        let x = keys[i];
        assert(keys@.contains(x));
        let intent = intents.get(&x).unwrap();
        if rows.contains_key(&x) && pages.contains(&intent.page_uuid) {
            filtered.insert(x, intent.copy());
        }
        i = i + 1;
    }
    proof {
        assert forall|x: u128| #[trigger] f.contains_key(x) implies filtered@.contains_key(x) by {
            assert(keys@.contains(x));
            let q = choose|q: int| 0 <= q < keys@.len() && keys@[q] == x;
        }
        assert(filtered@ =~= f);
    }
    let fkeys = intent_keys(&filtered);
    let ghost g = with_valid_parents(rows@, f);
    let mut adjusted: HashMap<u128, StructureIntent> = HashMap::new();
    let mut j: usize = 0;
    while j < fkeys.len()
        invariant
            filtered@ == f,
            g == with_valid_parents(rows@, f),
            forall|x: u128| f.contains_key(x) <==> fkeys@.contains(x),
            j <= fkeys@.len(),
            forall|x: u128|
                #[trigger] adjusted@.contains_key(x) <==> (f.contains_key(x) && exists|q: int|
                    0 <= q < j && #[trigger] fkeys@[q] == x),
            forall|x: u128| #[trigger] adjusted@.contains_key(x) ==> adjusted@[x] == g[x],
        decreases fkeys@.len() - j,
    {
        let x = fkeys[j];
        assert(fkeys@.contains(x));
        let intent = filtered.get(&x).unwrap();
        let mut copy = intent.copy();
        let keep = match intent.parent_uuid {
            Some(p) => match rows.get(&p) {
                Some(parent_row) => match filtered.get(&p) {
                    Some(parent_intent) => parent_intent.page_uuid == intent.page_uuid && !str_lt(
                        intent.hlc.as_str(),
                        parent_row.existence_hlc.as_str(),
                    ),
                    None => false,
                },
                None => false,
            },
            None => true,
        };
        if !keep {
            copy.parent_uuid = None;
        }
        assert(copy == g[x]);
        adjusted.insert(x, copy);
        j = j + 1;
    }
    proof {
        assert forall|x: u128| #[trigger] f.contains_key(x) implies adjusted@.contains_key(x) by {
            assert(fkeys@.contains(x));
            let q = choose|q: int| 0 <= q < fkeys@.len() && fkeys@[q] == x;
        }
        assert(adjusted@ =~= g);
    }
    break_structure_cycles(&mut adjusted);
    proof {
        lemma_planned_placement(rows@, pages@, intents@, adjusted@);
    }
    adjusted
}

/// The clock a placement is stamped with, with the time it records in seconds.
pub open spec fn placement_current(row: StructureRow, intent: StructureIntent, updated_at: i64) -> bool {
    &&& row.page_uuid == intent.page_uuid
    &&& row.parent_uuid == intent.parent_uuid
    &&& row.order_key@ == intent.order_key@
    &&& row.structure_hlc is Some && row.structure_hlc->0@ == intent.hlc@
    &&& row.updated_at >= updated_at
}

/// Whether a block's row already says what its planned placement says, so that writing
/// it again would change nothing.
pub fn placement_is_current(row: &StructureRow, intent: &StructureIntent, updated_at: i64) -> (r:
    bool)
    ensures
        r == placement_current(*row, *intent, updated_at),
{
    row.page_uuid == intent.page_uuid && row.parent_uuid == intent.parent_uuid && row.order_key
        == intent.order_key && match &row.structure_hlc {
        Some(h) => *h == intent.hlc,
        None => false,
    } && row.updated_at >= updated_at
}

/// Breaking cycles changes nothing where there is no cycle: an acyclic set of intents is
/// left as it is, so breaking cycles twice is breaking them once.
pub proof fn lemma_break_cycles_keeps_acyclic(
    old: Map<u128, StructureIntent>,
    new: Map<u128, StructureIntent>,
)
    requires
        acyclic(old),
        cycles_broken(old, new),
    ensures
        new == old,
{
    assert forall|x: u128| #[trigger] old.contains_key(x) implies new[x] == old[x] by {
        assert(!on_cycle(old, x));
    }
    assert(new =~= old);
}

/// Whether a block's planned placement, stamped at `updated_at` seconds, must be written:
/// its row does not already say exactly that.
pub open spec fn needs_write(rows: Map<u128, StructureRow>, p: (u128, StructureIntent, i64)) -> bool {
    !(rows.contains_key(p.0) && placement_current(rows[p.0], p.1, p.2))
}

/// The planned placements that must be written, in order.
pub open spec fn placements_due(rows: Map<u128, StructureRow>, planned: Seq<(u128, StructureIntent, i64)>) -> Seq<
    (u128, StructureIntent, i64),
>
    decreases planned.len(),
{
    if planned.len() == 0 {
        Seq::empty()
    } else if needs_write(rows, planned.last()) {
        placements_due(rows, planned.drop_last()).push(planned.last())
    } else {
        placements_due(rows, planned.drop_last())
    }
}

proof fn lemma_placements_due(rows: Map<u128, StructureRow>, planned: Seq<(u128, StructureIntent, i64)>)
    ensures
        forall|k: int|
            0 <= k < placements_due(rows, planned).len() ==> planned.contains(
                #[trigger] placements_due(rows, planned)[k],
            ) && needs_write(rows, placements_due(rows, planned)[k]),
        forall|k: int|
            0 <= k < planned.len() && needs_write(rows, #[trigger] planned[k]) ==> placements_due(
                rows,
                planned,
            ).contains(planned[k]),
    decreases planned.len(),
{
    if planned.len() > 0 {
        let init = planned.drop_last();
        lemma_placements_due(rows, init);
        let due = placements_due(rows, planned);
        let prev = placements_due(rows, init);
        assert forall|k: int| 0 <= k < due.len() implies planned.contains(#[trigger] due[k])
            && needs_write(rows, due[k]) by {
            if k < prev.len() {
                assert(due[k] == prev[k]);
                let j = choose|j: int| 0 <= j < init.len() && init[j] == prev[k];
                assert(planned[j] == init[j]);
            } else {
                assert(due[k] == planned.last());
                assert(planned[planned.len() - 1] == planned.last());
            }
        }
        assert forall|k: int| 0 <= k < planned.len() && needs_write(rows, #[trigger] planned[k])
            implies due.contains(planned[k]) by {
            if k < planned.len() - 1 {
                assert(init[k] == planned[k]);
                assert(prev.contains(init[k]));
                let j = choose|j: int| 0 <= j < prev.len() && prev[j] == init[k];
                assert(due[j] == prev[j]);
            } else {
                assert(due[due.len() - 1] == planned.last());
            }
        }
    }
}

/// The planned placements that reconciling must write: every one whose row does not
/// already say what it says, in order. A row that is already current is not rewritten.
pub fn placements_to_write(
    rows: &HashMap<u128, StructureRow>,
    planned: &Vec<(u128, StructureIntent, i64)>,
) -> (r: Vec<(u128, StructureIntent, i64)>)
    ensures
        r@ == placements_due(rows@, planned@),
        forall|k: int| 0 <= k < r@.len() ==> planned@.contains(#[trigger] r@[k]) && needs_write(rows@, r@[k]),
        forall|k: int|
            0 <= k < planned@.len() && needs_write(rows@, #[trigger] planned@[k]) ==> r@.contains(
                planned@[k],
            ),
{
    let mut out: Vec<(u128, StructureIntent, i64)> = Vec::new();
    let mut i: usize = 0;
    assert(planned@.take(0) =~= Seq::<(u128, StructureIntent, i64)>::empty());
    while i < planned.len()
        invariant
            i <= planned@.len(),
            out@ == placements_due(rows@, planned@.take(i as int)),
        decreases planned@.len() - i,
    {
        assert(planned@.take(i + 1).drop_last() =~= planned@.take(i as int));
        assert(planned@.take(i + 1).last() == planned@[i as int]);
        let (x, intent, stamp) = &planned[i];
        let current = match rows.get(x) {
            Some(row) => placement_is_current(row, intent, *stamp),
            None => false,
        };
        if !current {
            out.push((*x, intent.copy(), *stamp));
        }
        i = i + 1;
    }
    assert(planned@.take(planned@.len() as int) =~= planned@);
    proof {
        lemma_placements_due(rows@, planned@);
    }
    out
}

/// A cycle is broken at its most recent intent: a block that loses its parent lay on a
/// cycle, and every block its chain reaches has an earlier clock, or the same clock and a
/// UUID no greater.
pub proof fn lemma_cycle_broken_at_latest(
    old: Map<u128, StructureIntent>,
    new: Map<u128, StructureIntent>,
    x: u128,
)
    requires
        cycles_broken(old, new),
        old.contains_key(x),
        old[x].parent_uuid is Some,
        new[x].parent_uuid is None,
    ensures
        on_cycle(old, x),
        forall|y: u128|
            #[trigger] reaches(old, x, y) ==> text_lt(old[y].hlc@, old[x].hlc@) || (old[y].hlc@
                == old[x].hlc@ && y <= x),
{
    assert(cycle_leader(old, x));
}

} // verus!