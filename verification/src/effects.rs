//! The derived projections that applying operations leaves behind: the placement of
//! blocks, and the page links and block references that Markdown implies. A single
//! operation refreshes them at once; a batch defers them and refreshes each once at the
//! end, against the final state.

use vstd::prelude::*;
use std::collections::{BTreeMap, BTreeSet};
use vstd::laws_cmp::obeys_cmp;
use vstd::std_specs::btree::{increasing_seq, spec_keys_iter};
use vstd::std_specs::cmp::OrdSpec;
use vstd::std_specs::iter::IteratorSpec;
use crate::text::{
    lemma_text_lt_asymmetric, lemma_text_lt_total, lemma_text_lt_transitive, str_lt, text_lt,
};

verus! {

broadcast use vstd::std_specs::btree::group_btree_axioms, vstd::laws_cmp::group_laws_cmp;

/// How many refreshes a batch performed.
#[derive(Debug, Clone, Copy, PartialEq, Eq, Structural)]
pub struct ApplyStats {
    pub structure_reconciliations: u32,
    pub reference_projections: u32,
}

/// The refreshes that applying a batch still owes.
pub struct ApplyFinish {
    /// Whether block placement must be reconciled.
    pub reconcile_structure: bool,
    /// The aliases whose page links must be re-resolved, each once, in text order.
    pub page_links: Vec<String>,
    /// The blocks whose references must be projected from their latest Markdown, each
    /// once, in UUID order.
    pub block_refs: Vec<(u128, String, i64)>,
    /// The refreshes of the whole batch, these included.
    pub stats: ApplyStats,
}

/// The projections owed by the operations applied so far.
pub struct ApplyEffects {
    deferred: bool,
    structure_dirty: bool,
    graph_changed_blocks: BTreeSet<u128>,
    pending_block_refs: BTreeMap<u128, (String, i64)>,
    pending_page_links: Vec<String>,
    stats: ApplyStats,
}

pub open spec fn views(v: Seq<String>) -> Seq<Seq<char>> {
    v.map_values(|s: String| s@)
}

/// Each text is before the next: in order, and none twice.
pub open spec fn ascending(s: Seq<Seq<char>>) -> bool {
    forall|i: int, j: int| 0 <= i < j < s.len() ==> text_lt(#[trigger] s[i], #[trigger] s[j])
}

/// A map's keys come out of its key iterator in increasing order.
proof fn lemma_keys_ascending(m: &BTreeMap<u128, (String, i64)>)
    ensures
        forall|a: int, b: int|
            0 <= a < b < spec_keys_iter(m).remaining().len() ==> *(
            #[trigger] spec_keys_iter(m).remaining()[a]) < *(
            #[trigger] spec_keys_iter(m).remaining()[b]),
{
    let s = spec_keys_iter(m).remaining();
    assert(increasing_seq(s));
    assert(obeys_cmp::<u128>());
    assert(obeys_cmp::<&u128>());
    vstd::std_specs::btree::axiom_increasing_seq_meaning(s);
    assert forall|a: int, b: int| 0 <= a < b < s.len() implies *(#[trigger] s[a]) < *(#[trigger] s[b]) by {
        assert(OrdSpec::cmp_spec(&s[a], &s[b]) is Less);
    }
}

impl ApplyEffects {
    /// Whether refreshes wait for the end of the batch.
    pub closed spec fn is_deferred(&self) -> bool {
        self.deferred
    }

    /// Whether block placement is owed.
    pub closed spec fn structure_owed(&self) -> bool {
        self.structure_dirty
    }

    /// The blocks whose references changed.
    pub closed spec fn graph_changed(&self) -> Set<u128> {
        self.graph_changed_blocks@
    }

    /// The latest Markdown and timestamp of each block whose references are owed.
    pub closed spec fn pending_refs(&self) -> Map<u128, (String, i64)> {
        self.pending_block_refs@
    }

    /// The aliases whose page links are owed, in text order.
    pub closed spec fn pending_links(&self) -> Seq<Seq<char>> {
        views(self.pending_page_links@)
    }

    pub closed spec fn counted(&self) -> ApplyStats {
        self.stats
    }

    /// The owed aliases are held in text order, none twice.
    pub closed spec fn wf(&self) -> bool {
        ascending(self.pending_links())
    }

    /// The refreshes counted so far.
    pub fn stats(&self) -> (r: ApplyStats)
        ensures
            r == self.counted(),
    {
        self.stats
    }

    /// How many page-link and block-reference refreshes are owed.
    pub fn owed(&self) -> (r: (usize, usize))
        ensures
            r.0 == self.pending_links().len(),
            r.1 == self.pending_refs().dom().len(),
    {
        (self.pending_page_links.len(), self.pending_block_refs.len())
    }

    /// Effects that refresh every projection as soon as it is requested.
    pub fn immediate() -> (r: Self)
        ensures
            r.wf(),
            !r.is_deferred(),
            !r.structure_owed(),
            r.graph_changed() == Set::<u128>::empty(),
            r.pending_refs() == Map::<u128, (String, i64)>::empty(),
            r.pending_links() == Seq::<Seq<char>>::empty(),
            r.counted() == (ApplyStats { structure_reconciliations: 0, reference_projections: 0 }),
    {
        let r = ApplyEffects {
            deferred: false,
            structure_dirty: false,
            graph_changed_blocks: BTreeSet::new(),
            pending_block_refs: BTreeMap::new(),
            pending_page_links: Vec::new(),
            stats: ApplyStats { structure_reconciliations: 0, reference_projections: 0 },
        };
        assert(r.pending_links() =~= Seq::<Seq<char>>::empty());
        r
    }

    /// Effects that owe every projection until the batch finishes.
    pub fn deferred() -> (r: Self)
        ensures
            r.wf(),
            r.is_deferred(),
            !r.structure_owed(),
            r.graph_changed() == Set::<u128>::empty(),
            r.pending_refs() == Map::<u128, (String, i64)>::empty(),
            r.pending_links() == Seq::<Seq<char>>::empty(),
            r.counted() == (ApplyStats { structure_reconciliations: 0, reference_projections: 0 }),
    {
        let mut r = Self::immediate();
        r.deferred = true;
        r
    }

    /// Requests a reconciliation of block placement. Returns whether it is to run now;
    /// otherwise it is owed.
    pub fn request_structure(&mut self) -> (now: bool)
        requires
            old(self).counted().structure_reconciliations < u32::MAX,
        ensures
            now == !old(self).is_deferred(),
            final(self).is_deferred() == old(self).is_deferred(),
            final(self).structure_owed() == (old(self).structure_owed() || old(self).is_deferred()),
            final(self).counted() == (if now {
                ApplyStats {
                    structure_reconciliations: (old(self).counted().structure_reconciliations
                        + 1) as u32,
                    ..old(self).counted()
                }
            } else {
                old(self).counted()
            }),
            final(self).graph_changed() == old(self).graph_changed(),
            final(self).pending_refs() == old(self).pending_refs(),
            final(self).pending_links() == old(self).pending_links(),
            final(self).wf() == old(self).wf(),
    {
        if self.deferred {
            self.structure_dirty = true;
            false
        } else {
            self.stats.structure_reconciliations = self.stats.structure_reconciliations + 1;
            true
        }
    }

    /// Requests the projection of a block's references from `markdown`. Returns whether it
    /// is to run now; otherwise it is owed, and replaces what was owed for the block.
    pub fn request_block_refs(&mut self, block_uuid: u128, markdown: String, timestamp: i64) -> (now:
        bool)
        requires
            old(self).counted().reference_projections < u32::MAX,
        ensures
            now == !old(self).is_deferred(),
            final(self).is_deferred() == old(self).is_deferred(),
            final(self).structure_owed() == old(self).structure_owed(),
            final(self).pending_refs() == (if now {
                old(self).pending_refs()
            } else {
                old(self).pending_refs().insert(block_uuid, (markdown, timestamp))
            }),
            final(self).counted() == (if now {
                ApplyStats {
                    reference_projections: (old(self).counted().reference_projections + 1) as u32,
                    ..old(self).counted()
                }
            } else {
                old(self).counted()
            }),
            final(self).graph_changed() == old(self).graph_changed(),
            final(self).pending_links() == old(self).pending_links(),
            final(self).wf() == old(self).wf(),
    {
        if self.deferred {
            self.pending_block_refs.insert(block_uuid, (markdown, timestamp));
            false
        } else {
            self.stats.reference_projections = self.stats.reference_projections + 1;
            true
        }
    }

    /// Requests that the page links naming `alias` be re-resolved. Returns whether it is to
    /// run now; otherwise it is owed, once however often it is requested.
    pub fn request_page_links(&mut self, alias: String) -> (now: bool)
        requires
            old(self).wf(),
            old(self).counted().reference_projections < u32::MAX,
        ensures
            final(self).wf(),
            now == !old(self).is_deferred(),
            final(self).is_deferred() == old(self).is_deferred(),
            final(self).structure_owed() == old(self).structure_owed(),
            now ==> final(self).pending_links() == old(self).pending_links(),
            !now ==> final(self).pending_links().to_set() == old(self).pending_links().to_set().insert(
                alias@,
            ),
            final(self).counted() == (if now {
                ApplyStats {
                    reference_projections: (old(self).counted().reference_projections + 1) as u32,
                    ..old(self).counted()
                }
            } else {
                old(self).counted()
            }),
            final(self).graph_changed() == old(self).graph_changed(),
            final(self).pending_refs() == old(self).pending_refs(),
    {
        if self.deferred {
            let ghost before = views(self.pending_page_links@);
            let mut i: usize = 0;
            while i < self.pending_page_links.len() && str_lt(
                self.pending_page_links[i].as_str(),
                alias.as_str(),
            )
                invariant
                    i <= self.pending_page_links@.len(),
                    before == views(self.pending_page_links@),
                    forall|k: int| 0 <= k < i ==> text_lt(#[trigger] before[k], alias@),
                decreases self.pending_page_links@.len() - i,
            {
                i = i + 1;
            }
            if i < self.pending_page_links.len() && !str_lt(
                alias.as_str(),
                self.pending_page_links[i].as_str(),
            ) {
                proof {
                    lemma_text_lt_total(before[i as int], alias@);
                    assert(before[i as int] == alias@);
                    assert(before.to_set().insert(alias@) =~= before.to_set());
                }
                return false;
            }
            proof {
                if i < before.len() {
                    lemma_text_lt_total(before[i as int], alias@);
                    lemma_text_lt_asymmetric(before[i as int], alias@);
                }
            }
            self.pending_page_links.insert(i, alias);
            proof {
                let after = views(self.pending_page_links@);
                assert(after =~= before.insert(i as int, alias@));
                assert forall|x: int, y: int| 0 <= x < y < after.len() implies text_lt(
                    #[trigger] after[x],
                    #[trigger] after[y],
                ) by {
                    if y < i {
                    } else if y == i {
                    } else if x < i {
                        lemma_text_lt_transitive(after[x], alias@, before[i as int]);
                        if y - 1 > i {
                            lemma_text_lt_transitive(after[x], before[i as int], after[y]);
                        }
                    } else if x == i {
                        if y - 1 > i {
                            lemma_text_lt_transitive(alias@, before[i as int], after[y]);
                        }
                    } else {
                    }
                }
                assert forall|x: Seq<char>| after.contains(x) <==> (before.contains(x) || x
                    == alias@) by {
                    if after.contains(x) {
                        let k = choose|k: int| 0 <= k < after.len() && after[k] == x;
                        if k < i {
                            assert(before[k] == x);
                        } else if k > i {
                            assert(before[k - 1] == x);
                        }
                    }
                    if before.contains(x) {
                        let k = choose|k: int| 0 <= k < before.len() && before[k] == x;
                        if k < i {
                            assert(after[k] == x);
                        } else {
                            assert(after[k + 1] == x);
                        }
                    }
                    if x == alias@ {
                        assert(after[i as int] == x);
                    }
                }
                assert(after.to_set() =~= before.to_set().insert(alias@));
            }
            false
        } else {
            self.stats.reference_projections = self.stats.reference_projections + 1;
            true
        }
    }

    /// Drops what is owed for a block's references: the block is gone.
    pub fn discard_block_refs(&mut self, block_uuid: u128)
        ensures
            final(self).pending_refs() == old(self).pending_refs().remove(block_uuid),
            final(self).is_deferred() == old(self).is_deferred(),
            final(self).structure_owed() == old(self).structure_owed(),
            final(self).counted() == old(self).counted(),
            final(self).graph_changed() == old(self).graph_changed(),
            final(self).pending_links() == old(self).pending_links(),
            final(self).wf() == old(self).wf(),
    {
        self.pending_block_refs.remove(&block_uuid);
    }

    /// Records that a block's references changed. Returns whether the block is new to the
    /// record, so that the operation at hand changed the reference graph.
    pub fn mark_graph_changed(&mut self, block_uuid: u128) -> (new: bool)
        ensures
            new == !old(self).graph_changed().contains(block_uuid),
            final(self).graph_changed() == old(self).graph_changed().insert(block_uuid),
            final(self).is_deferred() == old(self).is_deferred(),
            final(self).structure_owed() == old(self).structure_owed(),
            final(self).counted() == old(self).counted(),
            final(self).pending_refs() == old(self).pending_refs(),
            final(self).pending_links() == old(self).pending_links(),
            final(self).wf() == old(self).wf(),
    {
        self.graph_changed_blocks.insert(block_uuid)
    }

    /// Ends the batch: what is still owed, each item once, and the counts of the whole
    /// batch with those refreshes included.
    pub fn finish(self) -> (r: ApplyFinish)
        requires
            self.wf(),
            self.counted().structure_reconciliations + 1 <= u32::MAX,
            self.counted().reference_projections + self.pending_links().len()
                + self.pending_refs().dom().len() <= u32::MAX,
        ensures
            r.reconcile_structure == self.structure_owed(),
            views(r.page_links@) == self.pending_links(),
            forall|k: u128|
                #[trigger] self.pending_refs().contains_key(k) <==> exists|i: int|
                    0 <= i < r.block_refs@.len() && (#[trigger] r.block_refs@[i]).0 == k,
            forall|i: int|
                0 <= i < r.block_refs@.len() ==> self.pending_refs().contains_key(
                    (#[trigger] r.block_refs@[i]).0,
                ) && self.pending_refs()[r.block_refs@[i].0] == (
                r.block_refs@[i].1,
                r.block_refs@[i].2,
            ),
            forall|i: int, j: int|
                0 <= i < j < r.block_refs@.len() ==> (#[trigger] r.block_refs@[i]).0 < (
                #[trigger] r.block_refs@[j]).0,
            ascending(views(r.page_links@)),
            r.stats.structure_reconciliations == self.counted().structure_reconciliations + (
            if self.structure_owed() {
                1int
            } else {
                0int
            }),
            r.stats.reference_projections == self.counted().reference_projections
                + self.pending_links().len() + self.pending_refs().dom().len(),
    {
        let ghost pending = self.pending_refs();
        let ApplyEffects {
            deferred: _,
            structure_dirty,
            graph_changed_blocks: _,
            pending_block_refs,
            pending_page_links,
            stats,
        } = self;
        assert(pending == pending_block_refs@);
        let mut map = pending_block_refs;
        let mut keys: Vec<u128> = Vec::new();
        proof {
            lemma_keys_ascending(&map);
        }
        for k in it: map.keys()
            invariant
                keys@ == it.seq().unref().take(it.index() as int),
                it.seq().unref().to_set() == map@.dom(),
                it.seq().unref().no_duplicates(),
                it.seq().len() == map@.dom().len(),
                forall|a: int, b: int|
                    0 <= a < b < it.seq().len() ==> *(#[trigger] it.seq()[a]) < *(
                    #[trigger] it.seq()[b]),
                it.index() == it.seq().len() ==> keys@ == it.seq().unref(),
        {
            assert(it.seq().unref().take(it.index() + 1) =~= it.seq().unref().take(
                it.index() as int,
            ).push(*k));
            assert(it.index() + 1 == it.seq().len() ==> it.seq().unref().take(it.index() + 1)
                =~= it.seq().unref());
            keys.push(*k);
        }
        assert(keys@.to_set() == pending.dom());
        let mut refs: Vec<(u128, String, i64)> = Vec::new();
        let mut i: usize = 0;
        while i < keys.len()
            invariant
                keys@.to_set() == pending.dom(),
                keys@.no_duplicates(),
                forall|a: int, b: int| 0 <= a < b < keys@.len() ==> #[trigger] keys@[a] < #[trigger] keys@[b],
                keys@.len() == pending.dom().len(),
                i <= keys@.len(),
                refs@.len() == i,
                forall|j: int|
                    i <= j < keys@.len() ==> map@.contains_key(#[trigger] keys@[j]) && map@[keys@[j]]
                        == pending[keys@[j]],
                forall|j: int|
                    0 <= j < i ==> (#[trigger] refs@[j]).0 == keys@[j] && pending[keys@[j]] == (
                    refs@[j].1,
                    refs@[j].2,
                ),
            decreases keys@.len() - i,
        {
            let k = keys[i];
            let ghost before = map@;
            let removed = map.remove(&k);
            match removed {
                Some((markdown, timestamp)) => {
                    proof {
                        assert forall|j: int| i + 1 <= j < keys@.len() implies map@.contains_key(
                            #[trigger] keys@[j],
                        ) && map@[keys@[j]] == pending[keys@[j]] by {
                            assert(keys@[j] != keys@[i as int]);
                            assert(before.contains_key(keys@[j]));
                        }
                    }
                    refs.push((k, markdown, timestamp));
                },
                None => {
                    assert(false);
                },
            }
            i = i + 1;
        }
        proof {
            assert forall|k: u128|
                #[trigger] pending.contains_key(k) <==> exists|j: int|
                    0 <= j < refs@.len() && (#[trigger] refs@[j]).0 == k by {
                if pending.contains_key(k) {
                    assert(keys@.to_set().contains(k));
                    let j = choose|j: int| 0 <= j < keys@.len() && keys@[j] == k;
                    assert(refs@[j].0 == k);
                }
                if exists|j: int| 0 <= j < refs@.len() && (#[trigger] refs@[j]).0 == k {
                    let j = choose|j: int| 0 <= j < refs@.len() && (#[trigger] refs@[j]).0 == k;
                    assert(keys@.to_set().contains(keys@[j]));
                }
            }
            assert forall|a: int, b: int|
                0 <= a < b < refs@.len() implies (#[trigger] refs@[a]).0 < (
                #[trigger] refs@[b]).0 by {
                assert(keys@[a] < keys@[b]);
            }
            assert forall|j: int| 0 <= j < refs@.len() implies pending.contains_key(
                (#[trigger] refs@[j]).0,
            ) by {
                assert(keys@.to_set().contains(keys@[j]));
            }
        }
        let links = pending_page_links.len();
        let owed = refs.len();
        let structure = if structure_dirty {
            stats.structure_reconciliations + 1
        } else {
            stats.structure_reconciliations
        };
        let projections = stats.reference_projections + links as u32 + owed as u32;
        let res = ApplyFinish {
            reconcile_structure: structure_dirty,
            page_links: pending_page_links,
            block_refs: refs,
            stats: ApplyStats { structure_reconciliations: structure, reference_projections: projections },
        };
        assert forall|k: u128|
            #[trigger] self.pending_refs().contains_key(k) <==> exists|j: int|
                0 <= j < res.block_refs@.len() && (#[trigger] res.block_refs@[j]).0 == k by {
            if pending.contains_key(k) {
                let j = choose|j: int| 0 <= j < refs@.len() && (#[trigger] refs@[j]).0 == k;
                assert(res.block_refs@[j].0 == k);
            }
        }
        res
    }
}

} // verus!
