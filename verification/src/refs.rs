//! The pages and blocks a block's Markdown refers to. The Markdown scanner finds the
//! reference occurrences; here they become the sorted, duplicate-free sets of page titles
//! and block UUIDs that the link tables hold.

use vstd::prelude::*;
use std::collections::BTreeSet;
use vstd::laws_cmp::obeys_cmp;
use vstd::std_specs::btree::{increasing_seq, spec_btree_keys_iter};
use vstd::std_specs::cmp::OrdSpec;
use vstd::std_specs::iter::IteratorSpec;
use crate::effects::views;
use crate::identity::{parse_uuid, parsed_uuid};
use crate::text::{
    lemma_text_lt_asymmetric, lemma_text_lt_irreflexive, lemma_text_lt_total,
    lemma_text_lt_transitive, str_lt, text_lt,
};

verus! {

broadcast use vstd::std_specs::btree::group_btree_axioms, vstd::laws_cmp::group_laws_cmp;

/// The two kinds of reference Markdown can hold.
#[derive(Debug, Clone, Copy, PartialEq, Eq, Structural)]
pub enum ReferenceKind {
    /// `[[Page title]]`.
    WikiLink,
    /// `((block UUID))`.
    BlockReference,
}

/// One reference occurrence: its kind and the text of its target.
#[derive(Debug, Clone)]
pub struct Reference {
    pub kind: ReferenceKind,
    pub target: String,
}

/// The page titles that the occurrences link to.
pub open spec fn page_targets(refs: Seq<Reference>) -> Set<Seq<char>> {
    Set::new(
        |t: Seq<char>|
            exists|i: int|
                0 <= i < refs.len() && (#[trigger] refs[i]).kind == ReferenceKind::WikiLink
                    && refs[i].target@ == t,
    )
}

/// The block UUIDs that the occurrences refer to; a target that is no UUID is ignored.
pub open spec fn block_targets(refs: Seq<Reference>) -> Set<u128> {
    Set::new(
        |u: u128|
            exists|i: int|
                0 <= i < refs.len() && (#[trigger] refs[i]).kind == ReferenceKind::BlockReference
                    && parsed_uuid(refs[i].target@) == Some(u),
    )
}

pub open spec fn text_sorted(s: Seq<Seq<char>>) -> bool {
    forall|i: int, j: int| 0 <= i < j < s.len() ==> text_lt(#[trigger] s[i], #[trigger] s[j])
}

pub open spec fn uuid_sorted(s: Seq<u128>) -> bool {
    forall|i: int, j: int| 0 <= i < j < s.len() ==> #[trigger] s[i] < #[trigger] s[j]
}

/// Two strictly ascending sequences of text with the same elements are the same sequence.
pub proof fn lemma_text_sorted_unique(a: Seq<Seq<char>>, b: Seq<Seq<char>>)
    requires
        text_sorted(a),
        text_sorted(b),
        a.to_set() == b.to_set(),
    ensures
        a == b,
    decreases a.len(),
{
    if a.len() == 0 {
        if b.len() > 0 {
            assert(b.to_set().contains(b[0]));
        }
        assert(a =~= b);
    } else {
        if b.len() == 0 {
            assert(a.to_set().contains(a[0]));
            assert(false);
        }
        let x = a[0];
        let y = b[0];
        assert(b.to_set().contains(x));
        assert(a.to_set().contains(y));
        let j = choose|j: int| 0 <= j < b.len() && b[j] == x;
        let k = choose|k: int| 0 <= k < a.len() && a[k] == y;
        if x != y {
            assert(j > 0 && k > 0);
            assert(text_lt(y, x));
            assert(text_lt(x, y));
            lemma_text_lt_asymmetric(x, y);
        }
        let ra = a.drop_first();
        let rb = b.drop_first();
        assert forall|z: Seq<char>| ra.to_set().contains(z) implies rb.to_set().contains(z) by {
            let i = choose|i: int| 0 <= i < ra.len() && ra[i] == z;
            assert(text_lt(a[0], a[i + 1]));
            lemma_text_lt_irreflexive(z);
            assert(b.to_set().contains(z));
            let m = choose|m: int| 0 <= m < b.len() && b[m] == z;
            assert(rb[m - 1] == z);
        }
        assert forall|z: Seq<char>| rb.to_set().contains(z) implies ra.to_set().contains(z) by {
            let i = choose|i: int| 0 <= i < rb.len() && rb[i] == z;
            assert(text_lt(b[0], b[i + 1]));
            lemma_text_lt_irreflexive(z);
            assert(a.to_set().contains(z));
            let m = choose|m: int| 0 <= m < a.len() && a[m] == z;
            assert(ra[m - 1] == z);
        }
        assert(ra.to_set() =~= rb.to_set());
        lemma_text_sorted_unique(ra, rb);
        assert(a =~= seq![x] + ra);
        assert(b =~= seq![y] + rb);
    }
}

/// Two strictly ascending sequences of UUIDs with the same elements are the same sequence.
pub proof fn lemma_uuid_sorted_unique(a: Seq<u128>, b: Seq<u128>)
    requires
        uuid_sorted(a),
        uuid_sorted(b),
        a.to_set() == b.to_set(),
    ensures
        a == b,
    decreases a.len(),
{
    if a.len() == 0 {
        if b.len() > 0 {
            assert(b.to_set().contains(b[0]));
        }
        assert(a =~= b);
    } else {
        if b.len() == 0 {
            assert(a.to_set().contains(a[0]));
            assert(false);
        }
        let x = a[0];
        let y = b[0];
        assert(b.to_set().contains(x));
        assert(a.to_set().contains(y));
        let j = choose|j: int| 0 <= j < b.len() && b[j] == x;
        let k = choose|k: int| 0 <= k < a.len() && a[k] == y;
        if x != y {
            assert(j > 0 && k > 0);
            assert(y < x);
            assert(x < y);
        }
        let ra = a.drop_first();
        let rb = b.drop_first();
        assert forall|z: u128| ra.to_set().contains(z) implies rb.to_set().contains(z) by {
            let i = choose|i: int| 0 <= i < ra.len() && ra[i] == z;
            assert(a[0] < a[i + 1]);
            assert(b.to_set().contains(z));
            let m = choose|m: int| 0 <= m < b.len() && b[m] == z;
            assert(rb[m - 1] == z);
        }
        assert forall|z: u128| rb.to_set().contains(z) implies ra.to_set().contains(z) by {
            let i = choose|i: int| 0 <= i < rb.len() && rb[i] == z;
            assert(b[0] < b[i + 1]);
            assert(a.to_set().contains(z));
            let m = choose|m: int| 0 <= m < a.len() && a[m] == z;
            assert(ra[m - 1] == z);
        }
        assert(ra.to_set() =~= rb.to_set());
        lemma_uuid_sorted_unique(ra, rb);
        assert(a =~= seq![x] + ra);
        assert(b =~= seq![y] + rb);
    }
}

/// Adds `s` to an ascending vector of distinct strings, keeping it so.
fn insert_text(v: &mut Vec<String>, s: String)
    requires
        text_sorted(views(old(v)@)),
    ensures
        text_sorted(views(final(v)@)),
        views(final(v)@).to_set() == views(old(v)@).to_set().insert(s@),
{
    let mut i: usize = 0;
    while i < v.len() && str_lt(v[i].as_str(), s.as_str())
        invariant
            i <= v@.len(),
            forall|k: int| 0 <= k < i ==> text_lt(#[trigger] v@[k]@, s@),
        decreases v@.len() - i,
    {
        i = i + 1;
    }
    if i < v.len() && v[i] == s {
        assert(views(v@)[i as int] == s@);
        assert(views(v@).to_set() =~= views(v@).to_set().insert(s@));
        return;
    }
    let ghost before = views(v@);
    proof {
        if i < before.len() {
            lemma_text_lt_total(before[i as int], s@);
        }
    }
    v.insert(i, s);
    let ghost after = views(v@);
    assert(after =~= before.insert(i as int, s@));
    proof {
        assert forall|a: int, b: int| 0 <= a < b < after.len() implies text_lt(
            #[trigger] after[a],
            #[trigger] after[b],
        ) by {
            if b < i {
                assert(text_lt(before[a], before[b]));
            } else if b == i {
                assert(text_lt(before[a], s@));
            } else if a == i {
                if b - 1 > i {
                    assert(text_lt(before[i as int], before[b - 1]));
                    lemma_text_lt_transitive(s@, before[i as int], before[b - 1]);
                }
            } else if a < i {
                assert(text_lt(before[a], before[b - 1]));
            } else {
                assert(text_lt(before[a - 1], before[b - 1]));
            }
        }
        assert forall|z: Seq<char>| after.to_set().contains(z) <==> before.to_set().insert(
            s@,
        ).contains(z) by {
            if after.to_set().contains(z) {
                let k = choose|k: int| 0 <= k < after.len() && after[k] == z;
                if k < i {
                    assert(before[k] == z);
                } else if k > i {
                    assert(before[k - 1] == z);
                }
            }
            if before.to_set().contains(z) {
                let k = choose|k: int| 0 <= k < before.len() && before[k] == z;
                if k < i {
                    assert(after[k] == z);
                } else {
                    assert(after[k + 1] == z);
                }
            }
            if z == s@ {
                assert(after[i as int] == z);
            }
        }
        assert(after.to_set() =~= before.to_set().insert(s@));
    }
}

/// A set's elements come out of its iterator in increasing order.
proof fn lemma_set_ascending(s: &BTreeSet<u128>)
    ensures
        forall|a: int, b: int|
            0 <= a < b < spec_btree_keys_iter(s).remaining().len() ==> *(
            #[trigger] spec_btree_keys_iter(s).remaining()[a]) < *(
            #[trigger] spec_btree_keys_iter(s).remaining()[b]),
{
    let q = spec_btree_keys_iter(s).remaining();
    assert(increasing_seq(q));
    assert(obeys_cmp::<u128>());
    assert(obeys_cmp::<&u128>());
    vstd::std_specs::btree::axiom_increasing_seq_meaning(q);
    assert forall|a: int, b: int| 0 <= a < b < q.len() implies *(#[trigger] q[a]) < *(#[trigger] q[b]) by {
        assert(OrdSpec::cmp_spec(&q[a], &q[b]) is Less);
    }
}

/// The elements of a set of UUIDs, in ascending order.
fn ascending_uuids(s: &BTreeSet<u128>) -> (r: Vec<u128>)
    ensures
        uuid_sorted(r@),
        r@.to_set() == s@,
{
    proof {
        lemma_set_ascending(s);
    }
    let mut out: Vec<u128> = Vec::new();
    for u in it: s.iter()
        invariant
            out@ == it.seq().unref().take(it.index() as int),
            it.seq().unref().to_set() == s@,
            forall|a: int, b: int|
                0 <= a < b < it.seq().len() ==> *(#[trigger] it.seq()[a]) < *(
                #[trigger] it.seq()[b]),
            it.index() == it.seq().len() ==> out@ == it.seq().unref(),
    {
        assert(it.seq().unref().take(it.index() + 1) =~= it.seq().unref().take(it.index() as int).push(
            *u,
        ));
        assert(it.index() + 1 == it.seq().len() ==> it.seq().unref().take(it.index() + 1)
            =~= it.seq().unref());
        out.push(*u);
    }
    out
}

/// The page titles and block UUIDs that reference occurrences name, each once and in
/// ascending order; a block reference whose target is no UUID is ignored.
pub fn parse_refs(refs: &[Reference]) -> (r: (Vec<String>, Vec<u128>))
    ensures
        text_sorted(views(r.0@)),
        views(r.0@).to_set() == page_targets(refs@),
        uuid_sorted(r.1@),
        r.1@.to_set() == block_targets(refs@),
{
    let mut pages: Vec<String> = Vec::new();
    let mut blocks: BTreeSet<u128> = BTreeSet::new();
    let mut i: usize = 0;
    assert(views(pages@).to_set() =~= page_targets(refs@.take(0)));
    assert(blocks@ =~= block_targets(refs@.take(0)));
    while i < refs.len()
        invariant
            i <= refs@.len(),
            text_sorted(views(pages@)),
            views(pages@).to_set() == page_targets(refs@.take(i as int)),
            blocks@ == block_targets(refs@.take(i as int)),
        decreases refs@.len() - i,
    {
        let ghost taken = refs@.take(i as int);
        let ghost next = refs@.take(i + 1);
        assert(next =~= taken.push(refs@[i as int]));
        let r = &refs[i];
        match r.kind {
            ReferenceKind::WikiLink => {
                insert_text(&mut pages, r.target.clone());
                assert(page_targets(next) =~= page_targets(taken).insert(r.target@)) by {
                    assert(next[i as int] == refs@[i as int]);
                    assert forall|t: Seq<char>| #[trigger] page_targets(next).contains(t) implies page_targets(
                        taken,
                    ).insert(r.target@).contains(t) by {
                        let k = choose|k: int|
                            0 <= k < next.len() && (#[trigger] next[k]).kind == ReferenceKind::WikiLink
                                && next[k].target@ == t;
                        if k < i {
                            assert(taken[k] == next[k]);
                        }
                    }
                    assert forall|t: Seq<char>| #[trigger] page_targets(taken).contains(t) implies page_targets(
                        next,
                    ).contains(t) by {
                        let k = choose|k: int|
                            0 <= k < taken.len() && (#[trigger] taken[k]).kind == ReferenceKind::WikiLink
                                && taken[k].target@ == t;
                        assert(next[k] == taken[k]);
                    }
                }
                assert(block_targets(next) =~= block_targets(taken)) by {
                    assert forall|u: u128| #[trigger] block_targets(next).contains(u) implies block_targets(
                        taken,
                    ).contains(u) by {
                        let k = choose|k: int|
                            0 <= k < next.len() && (#[trigger] next[k]).kind
                                == ReferenceKind::BlockReference && parsed_uuid(next[k].target@) == Some(u);
                        assert(taken[k] == next[k]);
                    }
                    assert forall|u: u128| #[trigger] block_targets(taken).contains(u) implies block_targets(
                        next,
                    ).contains(u) by {
                        let k = choose|k: int|
                            0 <= k < taken.len() && (#[trigger] taken[k]).kind
                                == ReferenceKind::BlockReference && parsed_uuid(taken[k].target@) == Some(u);
                        assert(next[k] == taken[k]);
                    }
                }
            },
            ReferenceKind::BlockReference => {
                let parsed = parse_uuid(r.target.as_str());
                if let Some(u) = parsed {
                    blocks.insert(u);
                }
                assert(page_targets(next) =~= page_targets(taken)) by {
                    assert forall|t: Seq<char>| #[trigger] page_targets(next).contains(t) implies page_targets(
                        taken,
                    ).contains(t) by {
                        let k = choose|k: int|
                            0 <= k < next.len() && (#[trigger] next[k]).kind == ReferenceKind::WikiLink
                                && next[k].target@ == t;
                        assert(taken[k] == next[k]);
                    }
                    assert forall|t: Seq<char>| #[trigger] page_targets(taken).contains(t) implies page_targets(
                        next,
                    ).contains(t) by {
                        let k = choose|k: int|
                            0 <= k < taken.len() && (#[trigger] taken[k]).kind == ReferenceKind::WikiLink
                                && taken[k].target@ == t;
                        assert(next[k] == taken[k]);
                    }
                }
                assert(blocks@ =~= block_targets(next)) by {
                    assert forall|u: u128| #[trigger] block_targets(next).contains(u) implies blocks@.contains(u) by {
                        let k = choose|k: int|
                            0 <= k < next.len() && (#[trigger] next[k]).kind
                                == ReferenceKind::BlockReference && parsed_uuid(next[k].target@) == Some(u);
                        if k < i {
                            assert(taken[k] == next[k]);
                            assert(block_targets(taken).contains(u));
                        }
                    }
                    assert forall|u: u128| blocks@.contains(u) implies #[trigger] block_targets(next).contains(u) by {
                        if parsed != Some(u) {
                            assert(block_targets(taken).contains(u));
                            let k = choose|k: int|
                                0 <= k < taken.len() && (#[trigger] taken[k]).kind
                                    == ReferenceKind::BlockReference && parsed_uuid(taken[k].target@) == Some(u);
                            assert(next[k] == taken[k]);
                        } else {
                            assert(next[i as int] == refs@[i as int]);
                        }
                    }
                }
            },
        }
        i = i + 1;
    }
    assert(refs@.take(refs@.len() as int) =~= refs@);
    (pages, ascending_uuids(&blocks))
}

/// Whether two sets of occurrences name different pages or blocks.
pub fn content_references_changed(previous: &[Reference], next: &[Reference]) -> (r: bool)
    ensures
        r == (page_targets(previous@) != page_targets(next@) || block_targets(previous@)
            != block_targets(next@)),
{
    let (p1, b1) = parse_refs(previous);
    let (p2, b2) = parse_refs(next);
    let same_pages = same_texts(&p1, &p2);
    let same_blocks = same_uuids(&b1, &b2);
    proof {
        if views(p1@).to_set() == views(p2@).to_set() {
            lemma_text_sorted_unique(views(p1@), views(p2@));
        }
        if b1@.to_set() == b2@.to_set() {
            lemma_uuid_sorted_unique(b1@, b2@);
        }
    }
    !(same_pages && same_blocks)
}

fn same_texts(a: &Vec<String>, b: &Vec<String>) -> (r: bool)
    ensures
        r == (views(a@) == views(b@)),
{
    if a.len() != b.len() {
        assert(views(a@).len() != views(b@).len());
        return false;
    }
    let mut i: usize = 0;
    while i < a.len()
        invariant
            a@.len() == b@.len(),
            i <= a@.len(),
            forall|k: int| 0 <= k < i ==> a@[k]@ == b@[k]@,
        decreases a@.len() - i,
    {
        if !(a[i] == b[i]) {
            assert(views(a@)[i as int] != views(b@)[i as int]);
            return false;
        }
        i = i + 1;
    }
    assert(views(a@) =~= views(b@));
    true
}

fn same_uuids(a: &Vec<u128>, b: &Vec<u128>) -> (r: bool)
    ensures
        r == (a@ == b@),
{
    if a.len() != b.len() {
        return false;
    }
    let mut i: usize = 0;
    while i < a.len()
        invariant
            a@.len() == b@.len(),
            i <= a@.len(),
            forall|k: int| 0 <= k < i ==> a@[k] == b@[k],
        decreases a@.len() - i,
    {
        if a[i] != b[i] {
            return false;
        }
        i = i + 1;
    }
    assert(a@ =~= b@);
    true
}

/// The targets of a block's references: every wiki link's text is a page target and only
/// wiki links give page targets; every block reference whose text spells a UUID gives that
/// block. They depend on which references occur, not on their order or repetition.
pub proof fn lemma_reference_targets(a: Seq<Reference>, b: Seq<Reference>)
    ensures
        forall|i: int|
            0 <= i < a.len() && (#[trigger] a[i]).kind == ReferenceKind::WikiLink ==> page_targets(
                a,
            ).contains(a[i].target@),
        forall|t: Seq<char>|
            #[trigger] page_targets(a).contains(t) ==> exists|i: int|
                0 <= i < a.len() && (#[trigger] a[i]).kind == ReferenceKind::WikiLink && a[i].target@ == t,
        forall|i: int|
            0 <= i < a.len() && (#[trigger] a[i]).kind == ReferenceKind::BlockReference && parsed_uuid(
                a[i].target@,
            ) is Some ==> block_targets(a).contains(parsed_uuid(a[i].target@)->0),
        forall|u: u128|
            #[trigger] block_targets(a).contains(u) ==> exists|i: int|
                0 <= i < a.len() && (#[trigger] a[i]).kind == ReferenceKind::BlockReference
                    && parsed_uuid(a[i].target@) == Some(u),
        (forall|r: Reference| a.contains(r) <==> b.contains(r)) ==> page_targets(a) == page_targets(b)
            && block_targets(a) == block_targets(b),
{
    if forall|r: Reference| a.contains(r) <==> b.contains(r) {
        assert forall|t: Seq<char>| #[trigger] page_targets(a).contains(t) implies page_targets(b).contains(
            t,
        ) by {
            let i = choose|i: int|
                0 <= i < a.len() && (#[trigger] a[i]).kind == ReferenceKind::WikiLink && a[i].target@ == t;
            assert(a.contains(a[i]));
            let j = choose|j: int| 0 <= j < b.len() && b[j] == a[i];
            assert(b[j].kind == ReferenceKind::WikiLink);
        }
        assert forall|t: Seq<char>| #[trigger] page_targets(b).contains(t) implies page_targets(a).contains(
            t,
        ) by {
            let i = choose|i: int|
                0 <= i < b.len() && (#[trigger] b[i]).kind == ReferenceKind::WikiLink && b[i].target@ == t;
            assert(b.contains(b[i]));
            let j = choose|j: int| 0 <= j < a.len() && a[j] == b[i];
            assert(a[j].kind == ReferenceKind::WikiLink);
        }
        assert forall|u: u128| #[trigger] block_targets(a).contains(u) implies block_targets(b).contains(u) by {
            let i = choose|i: int|
                0 <= i < a.len() && (#[trigger] a[i]).kind == ReferenceKind::BlockReference
                    && parsed_uuid(a[i].target@) == Some(u);
            assert(a.contains(a[i]));
            let j = choose|j: int| 0 <= j < b.len() && b[j] == a[i];
            assert(b[j].kind == ReferenceKind::BlockReference);
        }
        assert forall|u: u128| #[trigger] block_targets(b).contains(u) implies block_targets(a).contains(u) by {
            let i = choose|i: int|
                0 <= i < b.len() && (#[trigger] b[i]).kind == ReferenceKind::BlockReference
                    && parsed_uuid(b[i].target@) == Some(u);
            assert(b.contains(b[i]));
            let j = choose|j: int| 0 <= j < a.len() && a[j] == b[i];
            assert(a[j].kind == ReferenceKind::BlockReference);
        }
        assert(page_targets(a) =~= page_targets(b));
        assert(block_targets(a) =~= block_targets(b));
    }
}

} // verus!