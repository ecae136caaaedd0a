//! Applying one operation to a replica, as a decision: from the operation and what the
//! replica's tables say about the objects it names, the writes that apply it, the
//! projections it asks for, and the objects it affects. The replica's store performs the
//! writes in one transaction, in order.

use vstd::prelude::*;
use crate::apply::{
    attachment_plan, dominates, ensure_object_kind, ensure_page_identity, identity_plan,
    kind_conflicts, opt_str, plan_attachment, plan_page_title, size_column, stored_size,
    title_plan, tombstone_dominates, AttachmentIntent, AttachmentPlan, ApplyError,
    IdentityAction, TitlePlan,
};
use crate::identity::{attachment_name, attachment_uuid, uuid_v5, NAMESPACE_OID};
use crate::model::{owner_kind, owner_uuid, AttachmentOwner, ObjectKind, PageKind};
use crate::operation::{
    opt_view, BlockCreate, BlockDelete, BlockMove, BlockSetMarkdown, BlockSetStyle, InkPublish,
    Op, OpKind, PageAliasSet, PageCreate, PageDelete, PageSetLayout, PageSetTitle,
};
use crate::text::{
    lemma_text_lt_asymmetric, lemma_text_lt_irreflexive, lemma_text_lt_total,
    lemma_text_lt_transitive, str_eq, str_lt, text_lt,
};

verus! {

/// What the pages table holds for a page.
#[derive(Debug, Clone)]
pub struct PageRow {
    pub existence_hlc: String,
    pub title_hlc: Option<String>,
    pub layout_hlc: Option<String>,
    pub normalized_title: Option<String>,
}

/// What the blocks table holds for a block.
#[derive(Debug, Clone)]
pub struct BlockRow {
    pub existence_hlc: String,
    pub markdown_hlc: Option<String>,
    pub style_hlc: Option<String>,
}

/// What the replica holds about one UUID: its page identity, its tombstone (kind and
/// deletion clock), its page row, its block row, and the clock of its structure intent.
#[derive(Debug, Clone)]
pub struct ObjectFacts {
    pub uuid: u128,
    pub identity: Option<PageKind>,
    pub tombstone: Option<(ObjectKind, String)>,
    pub page: Option<PageRow>,
    pub block: Option<BlockRow>,
    pub structure_hlc: Option<String>,
}

/// What the replica holds that applying one operation reads.
#[derive(Debug, Clone)]
pub struct ApplyFacts {
    /// The replica's workspace.
    pub replica_workspace: u128,
    /// The deterministic UUID of the journal page a journal creation names.
    pub journal_uuid: u128,
    /// The object the operation is about: the page, the block, the attachment owner, or
    /// the handwritten page.
    pub subject: ObjectFacts,
    /// The page a block operation places its block on.
    pub page: ObjectFacts,
    /// The parent a block operation names, if any.
    pub parent: Option<ObjectFacts>,
    /// The normalized form of the title the operation sets, if it sets one.
    pub normalized_title: Option<String>,
    /// Another page that holds that normalized title, with its title clock.
    pub title_holder: Option<(u128, Option<String>)>,
    /// The present explicit aliases of the page.
    pub explicit_aliases: Vec<String>,
    /// The aliases page links may name the page by: its explicit aliases and its title.
    pub reference_aliases: Vec<String>,
    /// The blocks on the page, with their existence clocks.
    pub page_blocks: Vec<(u128, String)>,
    /// The clock of the alias intent the operation names, if there is one.
    pub alias_hlc: Option<String>,
    /// The attachment intent for the operation's owner and hash, with its clock.
    pub attachment: Option<(AttachmentIntent, String)>,
    /// Whether the block's current Markdown and the operation's name different references.
    pub references_changed: bool,
}

/// One write of applying an operation. Payload values the write stores come from the
/// operation itself.
#[derive(Debug, Clone, PartialEq)]
pub enum Write {
    /// Store the handwriting version the operation publishes.
    ApplyInkVersion { publication: InkPublish },
    /// Reserve the page UUID for the page kind.
    ReserveIdentity { page: u128, kind: PageKind },
    /// Record a deletion at `hlc`, unless a later one is recorded.
    Tombstone { uuid: u128, kind: ObjectKind, root: Option<u128>, hlc: String },
    /// Forget an earlier deletion.
    DeleteTombstone { uuid: u128 },
    /// Raise the block tombstones rooted at the page to the operation's clock.
    PromoteBlockTombstones { page: u128 },
    /// Move the journal page's generation, and the initial clocks equal to `floor`, down
    /// to the operation's clock.
    LowerJournalFloor { page: u128, floor: String },
    /// Create the page, or start its new generation.
    PutPage { page: u128 },
    DeletePage { page: u128 },
    /// Remove the page's drawing.
    PurgeInk { page: u128 },
    /// Record the journal date of a journal page, or clear it for another page.
    MaterializeKind { page: u128, kind: PageKind },
    /// Set the page's title to the operation's.
    SetTitle { page: u128 },
    /// Another page gives up its title.
    ClearTitle { page: u128 },
    /// The page gives up its title at the operation's clock.
    YieldTitle { page: u128 },
    SetLayout { page: u128 },
    /// Create the block, or start its new generation.
    PutBlock { block: u128 },
    DeleteBlock { block: u128 },
    DeleteStructureIntent { block: u128 },
    /// Store the operation's placement as the block's structure intent.
    StructureIntent { block: u128 },
    SetMarkdown { block: u128 },
    SetStyle { block: u128 },
    /// Advance the block's update time.
    TouchBlock { block: u128 },
    /// Store the operation's alias intent.
    AliasIntent,
    /// Store the operation's attachment intent.
    AttachmentIntent,
    RemoveAttachmentRow { uuid: u128 },
    UpsertAttachmentRow { uuid: u128, filename: String, mime: String, size: i64 },
    /// Bring the visible attachment rows of an owner in line with their intents.
    ReconcileAttachments { owner: AttachmentOwner },
    /// Ask for block placement to be reconciled.
    RequestStructure,
    /// Ask for the block's references to be projected from the operation's Markdown.
    RequestBlockRefs { block: u128 },
    /// Ask for the page links naming the alias to be re-resolved.
    RequestPageLinks { alias: String },
    /// Drop what is owed for a block's references.
    DiscardBlockRefs { block: u128 },
    /// Record that the block's references changed.
    MarkGraphChanged { block: u128 },
}

/// The writes of one operation, in order, and the objects it affects.
pub struct ApplyPlan {
    pub writes: Vec<Write>,
    pub affected: Vec<u128>,
}

pub open spec fn plan_view(r: Result<ApplyPlan, ApplyError>) -> Result<
    (Seq<Write>, Seq<u128>),
    ApplyError,
> {
    match r {
        Ok(p) => Ok((p.writes@, p.affected@)),
        Err(e) => Err(e),
    }
}

pub open spec fn tomb_kind(f: ObjectFacts) -> Option<ObjectKind> {
    match f.tombstone {
        Some((k, _)) => Some(k),
        None => None,
    }
}

pub open spec fn tomb_hlc(f: ObjectFacts) -> Option<Seq<char>> {
    match f.tombstone {
        Some((_, h)) => Some(h@),
        None => None,
    }
}

/// The UUID may not be used as `expected`.
pub open spec fn conflicts(f: ObjectFacts, expected: ObjectKind) -> bool {
    kind_conflicts(expected, f.identity is Some, f.block is Some, tomb_kind(f))
}

/// A write at `hlc` wins over a field whose clock is `current`.
pub open spec fn wins(current: Option<Seq<char>>, hlc: Seq<char>) -> bool {
    match current {
        Some(c) => text_lt(c, hlc),
        None => true,
    }
}

/// A deletion at `hlc` leaves the tombstone at `hlc` unless a later one is recorded.
pub open spec fn deletion_took_effect(f: ObjectFacts, hlc: Seq<char>) -> bool {
    !(tomb_hlc(f) is Some && text_lt(hlc, tomb_hlc(f)->0))
}

fn check_kind(f: &ObjectFacts, expected: ObjectKind) -> (r: Result<(), ApplyError>)
    ensures
        r is Ok <==> !conflicts(*f, expected),
        r is Err ==> r == Err::<(), ApplyError>(ApplyError::KindConflict),
{
    let tombstone = match &f.tombstone {
        Some((k, _)) => Some(*k),
        None => None,
    };
    ensure_object_kind(expected, f.identity.is_some(), f.block.is_some(), tombstone)
}

fn tomb_clock(f: &ObjectFacts) -> (r: Option<&str>)
    ensures
        opt_str(r) == tomb_hlc(*f),
{
    match &f.tombstone {
        Some((_, h)) => Some(h.as_str()),
        None => None,
    }
}

fn clock(c: &Option<String>) -> (r: Option<&str>)
    ensures
        opt_str(r) == opt_view(*c),
{
    match c {
        Some(h) => Some(h.as_str()),
        None => None,
    }
}

fn exec_wins(current: Option<&str>, hlc: &str) -> (r: bool)
    ensures
        r == wins(opt_str(current), hlc@),
{
    match current {
        Some(c) => str_lt(c, hlc),
        None => true,
    }
}

// ---------------------------------------------------------------------------------------------
// Pieces shared by several operations

/// The page links to refresh when a title changes: those of the previous title and of the
/// new one, each once, in text order.
pub open spec fn alias_requests(previous: Option<String>, new: Option<String>) -> Seq<Write> {
    match (previous, new) {
        (Some(a), Some(b)) => if a@ == b@ {
            seq![Write::RequestPageLinks { alias: a }]
        } else if text_lt(a@, b@) {
            seq![Write::RequestPageLinks { alias: a }, Write::RequestPageLinks { alias: b }]
        } else {
            seq![Write::RequestPageLinks { alias: b }, Write::RequestPageLinks { alias: a }]
        },
        (Some(a), None) => seq![Write::RequestPageLinks { alias: a }],
        (None, Some(b)) => seq![Write::RequestPageLinks { alias: b }],
        (None, None) => Seq::empty(),
    }
}

pub open spec fn holder_view(holder: Option<(u128, Option<String>)>) -> Option<(u128, Option<Seq<char>>)> {
    match holder {
        Some((u, h)) => Some((u, opt_view(h))),
        None => None,
    }
}

/// The writes of a title change at `hlc` on a page whose title clock and normalized title
/// are `current_hlc` and `previous`.
pub open spec fn title_writes(
    page: u128,
    hlc: Seq<char>,
    titled: bool,
    current_hlc: Option<String>,
    previous: Option<String>,
    new: Option<String>,
    holder: Option<(u128, Option<String>)>,
) -> Seq<Write> {
    match title_plan(opt_view(current_hlc), hlc, titled, holder_view(holder)) {
        TitlePlan::Unchanged => Seq::empty(),
        TitlePlan::Yield => seq![Write::YieldTitle { page }] + alias_requests(previous, new),
        TitlePlan::Take { clear } => (match clear {
            Some(u) => seq![Write::ClearTitle { page: u }],
            None => Seq::empty(),
        }) + seq![Write::SetTitle { page }] + alias_requests(previous, new),
    }
}

fn push_alias_requests(w: &mut Vec<Write>, previous: &Option<String>, new: &Option<String>)
    ensures
        final(w)@ == old(w)@ + alias_requests(*previous, *new),
{
    let ghost start = w@;
    match (previous, new) {
        (Some(a), Some(b)) => {
            if str_eq(a.as_str(), b.as_str()) {
                w.push(Write::RequestPageLinks { alias: a.clone() });
            } else if str_lt(a.as_str(), b.as_str()) {
                w.push(Write::RequestPageLinks { alias: a.clone() });
                w.push(Write::RequestPageLinks { alias: b.clone() });
            } else {
                w.push(Write::RequestPageLinks { alias: b.clone() });
                w.push(Write::RequestPageLinks { alias: a.clone() });
            }
        },
        (Some(a), None) => {
            w.push(Write::RequestPageLinks { alias: a.clone() });
        },
        (None, Some(b)) => {
            w.push(Write::RequestPageLinks { alias: b.clone() });
        },
        (None, None) => {},
    }
    assert(w@ =~= start + alias_requests(*previous, *new));
}

fn push_title_writes(
    w: &mut Vec<Write>,
    page: u128,
    hlc: &str,
    titled: bool,
    current_hlc: &Option<String>,
    previous: &Option<String>,
    new: &Option<String>,
    holder: &Option<(u128, Option<String>)>,
)
    ensures
        final(w)@ == old(w)@ + title_writes(page, hlc@, titled, *current_hlc, *previous, *new, *holder),
{
    let held = match holder {
        Some((u, h)) => Some((*u, clock(h))),
        None => None,
    };
    let plan = plan_page_title(clock(current_hlc), hlc, titled, held);
    assert(title_plan(opt_view(*current_hlc), hlc@, titled, holder_view(*holder)) == plan);
    let ghost start = w@;
    match plan {
        TitlePlan::Unchanged => {
            assert(w@ =~= start + title_writes(page, hlc@, titled, *current_hlc, *previous, *new, *holder));
        },
        TitlePlan::Yield => {
            w.push(Write::YieldTitle { page });
            push_alias_requests(w, previous, new);
            assert(w@ =~= start + title_writes(page, hlc@, titled, *current_hlc, *previous, *new, *holder));
        },
        TitlePlan::Take { clear } => {
            if let Some(u) = clear {
                w.push(Write::ClearTitle { page: u });
            }
            w.push(Write::SetTitle { page });
            push_alias_requests(w, previous, new);
            assert(w@ =~= start + title_writes(page, hlc@, titled, *current_hlc, *previous, *new, *holder));
        },
    }
}

/// A request to refresh the page links of each alias, in order.
pub open spec fn link_requests(aliases: Seq<String>) -> Seq<Write>
    decreases aliases.len(),
{
    if aliases.len() == 0 {
        Seq::empty()
    } else {
        link_requests(aliases.drop_last()) + seq![Write::RequestPageLinks { alias: aliases.last() }]
    }
}

fn push_link_requests(w: &mut Vec<Write>, aliases: &Vec<String>)
    ensures
        final(w)@ == old(w)@ + link_requests(aliases@),
{
    let ghost start = w@;
    let mut i: usize = 0;
    assert(aliases@.take(0) =~= Seq::<String>::empty());
    assert(w@ =~= start + link_requests(aliases@.take(0)));
    while i < aliases.len()
        invariant
            i <= aliases@.len(),
            w@ == start + link_requests(aliases@.take(i as int)),
        decreases aliases@.len() - i,
    {
        assert(aliases@.take(i + 1).drop_last() =~= aliases@.take(i as int));
        w.push(Write::RequestPageLinks { alias: aliases[i].clone() });
        assert(w@ =~= start + link_requests(aliases@.take(i + 1)));
        i = i + 1;
    }
    assert(aliases@.take(aliases@.len() as int) =~= aliases@);
}

/// The UUIDs of the page's blocks, in order.
pub open spec fn block_ids(blocks: Seq<(u128, String)>) -> Seq<u128>
    decreases blocks.len(),
{
    if blocks.len() == 0 {
        Seq::empty()
    } else {
        block_ids(blocks.drop_last()).push(blocks.last().0)
    }
}

/// The page's blocks from a generation before `hlc`, in order.
pub open spec fn stale_blocks(blocks: Seq<(u128, String)>, hlc: Seq<char>) -> Seq<u128>
    decreases blocks.len(),
{
    if blocks.len() == 0 {
        Seq::empty()
    } else if text_lt(blocks.last().1@, hlc) {
        stale_blocks(blocks.drop_last(), hlc).push(blocks.last().0)
    } else {
        stale_blocks(blocks.drop_last(), hlc)
    }
}

fn collect_blocks(blocks: &Vec<(u128, String)>, hlc: &str, only_stale: bool) -> (r: Vec<u128>)
    ensures
        r@ == (if only_stale {
            stale_blocks(blocks@, hlc@)
        } else {
            block_ids(blocks@)
        }),
{
    let mut out: Vec<u128> = Vec::new();
    let mut i: usize = 0;
    assert(blocks@.take(0) =~= Seq::<(u128, String)>::empty());
    while i < blocks.len()
        invariant
            i <= blocks@.len(),
            out@ == (if only_stale {
                stale_blocks(blocks@.take(i as int), hlc@)
            } else {
                block_ids(blocks@.take(i as int))
            }),
        decreases blocks@.len() - i,
    {
        assert(blocks@.take(i + 1).drop_last() =~= blocks@.take(i as int));
        assert(blocks@.take(i + 1).last() == blocks@[i as int]);
        if !only_stale || str_lt(blocks[i].1.as_str(), hlc) {
            out.push(blocks[i].0);
        }
        i = i + 1;
    }
    assert(blocks@.take(blocks@.len() as int) =~= blocks@);
    out
}

/// What happens to each block of a page in one step of a creation or deletion.
#[derive(Debug, Clone, Copy, PartialEq, Eq, Structural)]
pub enum BlockStep {
    /// Buried with its page's earlier generation: references dropped, tombstone written,
    /// intent and row deleted.
    Bury,
    /// Deleted with its page: tombstone written, intent deleted.
    Delete,
    /// Its owed references are dropped.
    Discard,
}

pub open spec fn block_step(step: BlockStep, block: u128, page: u128, hlc: String) -> Seq<Write> {
    match step {
        BlockStep::Bury => seq![
            Write::DiscardBlockRefs { block },
            Write::Tombstone { uuid: block, kind: ObjectKind::Block, root: Some(page), hlc },
            Write::DeleteStructureIntent { block },
            Write::DeleteBlock { block },
        ],
        BlockStep::Delete => seq![
            Write::Tombstone { uuid: block, kind: ObjectKind::Block, root: Some(page), hlc },
            Write::DeleteStructureIntent { block },
        ],
        BlockStep::Discard => seq![Write::DiscardBlockRefs { block }],
    }
}

/// The step for each block, in order.
pub open spec fn block_steps(step: BlockStep, blocks: Seq<u128>, page: u128, hlc: String) -> Seq<
    Write,
>
    decreases blocks.len(),
{
    if blocks.len() == 0 {
        Seq::empty()
    } else {
        block_steps(step, blocks.drop_last(), page, hlc) + block_step(
            step,
            blocks.last(),
            page,
            hlc,
        )
    }
}

fn push_block_steps(w: &mut Vec<Write>, step: BlockStep, blocks: &Vec<u128>, page: u128, hlc: &String)
    ensures
        final(w)@ == old(w)@ + block_steps(step, blocks@, page, *hlc),
{
    let ghost start = w@;
    let mut i: usize = 0;
    assert(blocks@.take(0) =~= Seq::<u128>::empty());
    assert(w@ =~= start + block_steps(step, blocks@.take(0), page, *hlc));
    while i < blocks.len()
        invariant
            i <= blocks@.len(),
            w@ == start + block_steps(step, blocks@.take(i as int), page, *hlc),
        decreases blocks@.len() - i,
    {
        assert(blocks@.take(i + 1).drop_last() =~= blocks@.take(i as int));
        assert(blocks@.take(i + 1).last() == blocks@[i as int]);
        let b = blocks[i];
        match step {
            BlockStep::Bury => {
                w.push(Write::DiscardBlockRefs { block: b });
                w.push(
                    Write::Tombstone {
                        uuid: b,
                        kind: ObjectKind::Block,
                        root: Some(page),
                        hlc: hlc.clone(),
                    },
                );
                w.push(Write::DeleteStructureIntent { block: b });
                w.push(Write::DeleteBlock { block: b });
            },
            BlockStep::Delete => {
                w.push(
                    Write::Tombstone {
                        uuid: b,
                        kind: ObjectKind::Block,
                        root: Some(page),
                        hlc: hlc.clone(),
                    },
                );
                w.push(Write::DeleteStructureIntent { block: b });
            },
            BlockStep::Discard => {
                w.push(Write::DiscardBlockRefs { block: b });
            },
        }
        assert(w@ =~= start + block_steps(step, blocks@.take(i + 1), page, *hlc));
        i = i + 1;
    }
    assert(blocks@.take(blocks@.len() as int) =~= blocks@);
}

/// The writes of a Markdown change at `hlc` on a block whose Markdown clock is `current`.
pub open spec fn markdown_writes(block: u128, hlc: Seq<char>, current: Option<String>, changed: bool) -> Seq<
    Write,
> {
    if wins(opt_view(current), hlc) {
        (if changed {
            seq![Write::MarkGraphChanged { block }]
        } else {
            Seq::empty()
        }) + seq![Write::SetMarkdown { block }, Write::RequestBlockRefs { block }]
    } else {
        Seq::empty()
    }
}

fn push_markdown_writes(w: &mut Vec<Write>, block: u128, hlc: &str, current: &Option<String>, changed: bool)
    ensures
        final(w)@ == old(w)@ + markdown_writes(block, hlc@, *current, changed),
{
    let ghost start = w@;
    if exec_wins(clock(current), hlc) {
        if changed {
            w.push(Write::MarkGraphChanged { block });
        }
        w.push(Write::SetMarkdown { block });
        w.push(Write::RequestBlockRefs { block });
    }
    assert(w@ =~= start + markdown_writes(block, hlc@, *current, changed));
}

// ---------------------------------------------------------------------------------------------
// The operations, one by one

pub type PlanResult = Result<(Seq<Write>, Seq<u128>), ApplyError>;

pub open spec fn one(w: Write) -> Seq<Write> {
    seq![w]
}

pub open spec fn when(c: bool, w: Seq<Write>) -> Seq<Write> {
    if c {
        w
    } else {
        Seq::empty()
    }
}

pub open spec fn ink_plan(p: InkPublish, f: ApplyFacts) -> PlanResult {
    if conflicts(f.subject, ObjectKind::Page) {
        Err(ApplyError::KindConflict)
    } else {
        Ok((one(Write::ApplyInkVersion { publication: p }), seq![p.page_uuid]))
    }
}

/// A creation at `hlc` starts a new generation of the page the replica holds.
pub open spec fn recreates(hlc: String, f: ApplyFacts) -> bool {
    f.subject.page is Some && text_lt(f.subject.page->0.existence_hlc@, hlc@)
}

/// The blocks of the page's earlier generation that a creation at `hlc` buries.
pub open spec fn buried_blocks(hlc: String, f: ApplyFacts) -> Seq<u128> {
    if recreates(hlc, f) {
        stale_blocks(f.page_blocks@, hlc@)
    } else {
        Seq::empty()
    }
}

pub open spec fn row_title_hlc(f: ObjectFacts) -> Option<String> {
    match f.page {
        Some(r) => r.title_hlc,
        None => None,
    }
}

pub open spec fn row_title(f: ObjectFacts) -> Option<String> {
    match f.page {
        Some(r) => r.normalized_title,
        None => None,
    }
}

pub open spec fn row_style_hlc(f: ObjectFacts) -> Option<String> {
    match f.block {
        Some(r) => r.style_hlc,
        None => None,
    }
}

pub open spec fn row_layout_hlc(f: ObjectFacts) -> Option<String> {
    match f.page {
        Some(r) => r.layout_hlc,
        None => None,
    }
}

/// The first writes of a page creation that no deletion buries: the earlier generation's
/// blocks buried, block tombstones promoted, the page row and its kind.
pub open spec fn page_create_head(p: PageCreate, hlc: String, f: ApplyFacts) -> Seq<Write> {
    block_steps(BlockStep::Bury, buried_blocks(hlc, f), p.uuid, hlc) + one(
        Write::PromoteBlockTombstones { page: p.uuid },
    ) + when(f.subject.page is None || recreates(hlc, f), one(Write::PutPage { page: p.uuid }))
        + when(f.subject.tombstone is Some, one(Write::DeleteTombstone { uuid: p.uuid })) + one(
        Write::MaterializeKind { page: p.uuid, kind: p.kind },
    )
}

/// A page creation that no deletion buries, past the journal case.
pub open spec fn page_create_rest(p: PageCreate, hlc: String, f: ApplyFacts) -> (Seq<Write>, Seq<u128>) {
    let w = page_create_head(p, hlc, f) + title_writes(
        p.uuid,
        hlc@,
        p.title is Some,
        row_title_hlc(f.subject),
        row_title(f.subject),
        f.normalized_title,
        f.title_holder,
    ) + link_requests(f.explicit_aliases@) + when(
        wins(opt_view(row_layout_hlc(f.subject)), hlc@),
        one(Write::SetLayout { page: p.uuid }),
    ) + seq![
        Write::RequestStructure,
        Write::ReconcileAttachments { owner: AttachmentOwner::Page(p.uuid) },
    ];
    (w, seq![p.uuid] + buried_blocks(hlc, f))
}

pub open spec fn page_create_op_plan(p: PageCreate, hlc: String, f: ApplyFacts) -> PlanResult {
    if conflicts(f.subject, ObjectKind::Page) {
        Err(ApplyError::KindConflict)
    } else {
        match identity_plan(f.journal_uuid, p.uuid, p.kind, f.subject.identity) {
            Err(e) => Err(e),
            Ok(action) => {
                let reserve = when(
                    action == IdentityAction::Insert,
                    one(Write::ReserveIdentity { page: p.uuid, kind: p.kind }),
                );
                if dominates(tomb_hlc(f.subject), hlc@) {
                    Ok((reserve, seq![p.uuid]))
                } else if p.kind is Journal && f.subject.page is Some {
                    let e = f.subject.page->0.existence_hlc;
                    Ok(
                        (
                            reserve + when(
                                text_lt(hlc@, e@),
                                one(Write::LowerJournalFloor { page: p.uuid, floor: e }),
                            ),
                            seq![p.uuid],
                        ),
                    )
                } else {
                    let rest = page_create_rest(p, hlc, f);
                    Ok((reserve + rest.0, rest.1))
                }
            },
        }
    }
}

pub open spec fn alias_op_plan(p: PageAliasSet, hlc: String, f: ApplyFacts) -> PlanResult {
    if conflicts(f.subject, ObjectKind::Page) {
        Err(ApplyError::KindConflict)
    } else if f.subject.identity is None {
        Err(ApplyError::PageNotFound)
    } else {
        Ok(
            (
                when(
                    wins(opt_view(f.alias_hlc), hlc@),
                    seq![Write::AliasIntent, Write::RequestPageLinks { alias: p.alias }],
                ),
                seq![p.uuid],
            ),
        )
    }
}

pub open spec fn title_op_plan(p: PageSetTitle, hlc: String, f: ApplyFacts) -> PlanResult {
    if conflicts(f.subject, ObjectKind::Page) {
        Err(ApplyError::KindConflict)
    } else if f.subject.identity is Some && f.subject.identity->0 is Journal {
        Err(ApplyError::JournalTitle)
    } else if f.subject.tombstone is Some || f.subject.page is None {
        Ok((Seq::empty(), seq![p.uuid]))
    } else {
        let row = f.subject.page->0;
        Ok(
            (
                title_writes(
                    p.uuid,
                    hlc@,
                    p.title is Some,
                    row.title_hlc,
                    row.normalized_title,
                    f.normalized_title,
                    f.title_holder,
                ),
                seq![p.uuid],
            ),
        )
    }
}

pub open spec fn layout_op_plan(p: PageSetLayout, hlc: String, f: ApplyFacts) -> PlanResult {
    if f.subject.identity == Some(PageKind::Handwriting) {
        Err(ApplyError::HandwrittenTarget)
    } else if conflicts(f.subject, ObjectKind::Page) {
        Err(ApplyError::KindConflict)
    } else if f.subject.tombstone is Some {
        Ok((Seq::empty(), seq![p.uuid]))
    } else {
        let current = if f.subject.page is Some {
            f.subject.page->0.layout_hlc
        } else {
            None
        };
        Ok((when(wins(opt_view(current), hlc@), one(Write::SetLayout { page: p.uuid })), seq![p.uuid]))
    }
}

pub open spec fn page_delete_op_plan(p: PageDelete, hlc: String, f: ApplyFacts) -> PlanResult {
    if conflicts(f.subject, ObjectKind::Page) {
        Err(ApplyError::KindConflict)
    } else if f.subject.page is Some && text_lt(hlc@, f.subject.page->0.existence_hlc@) {
        Ok((Seq::empty(), seq![p.uuid]))
    } else {
        let blocks = block_ids(f.page_blocks@);
        let w = one(
            Write::Tombstone {
                uuid: p.uuid,
                kind: ObjectKind::Page,
                root: Some(p.uuid),
                hlc,
            },
        ) + block_steps(BlockStep::Delete, blocks, p.uuid, hlc) + when(
            deletion_took_effect(f.subject, hlc@),
            block_steps(BlockStep::Discard, blocks, p.uuid, hlc) + seq![
                Write::DeletePage { page: p.uuid },
                Write::PurgeInk { page: p.uuid },
            ] + link_requests(f.reference_aliases@),
        );
        Ok((w, seq![p.uuid] + blocks))
    }
}

/// The clock of the page's deletion, when its tombstone is a page tombstone.
pub open spec fn page_deleted(f: ObjectFacts) -> Option<String> {
    match f.tombstone {
        Some((ObjectKind::Page, d)) => Some(d),
        _ => None,
    }
}

pub open spec fn parent_conflicts(f: ApplyFacts) -> bool {
    match f.parent {
        Some(pf) => conflicts(pf, ObjectKind::Block),
        None => false,
    }
}

pub open spec fn block_create_op_plan(p: BlockCreate, hlc: String, f: ApplyFacts) -> PlanResult {
    if f.page.identity == Some(PageKind::Handwriting) {
        Err(ApplyError::HandwrittenTarget)
    } else if conflicts(f.subject, ObjectKind::Block) || conflicts(f.page, ObjectKind::Page) || (
    p.parent_uuid is Some && parent_conflicts(f)) {
        Err(ApplyError::KindConflict)
    } else if dominates(tomb_hlc(f.subject), hlc@) {
        Ok((Seq::empty(), seq![p.uuid]))
    } else if page_deleted(f.page) is Some {
        Ok(
            (
                one(
                    Write::Tombstone {
                        uuid: p.uuid,
                        kind: ObjectKind::Block,
                        root: Some(p.page_uuid),
                        hlc: page_deleted(f.page)->0,
                    },
                ),
                seq![p.uuid, p.page_uuid],
            ),
        )
    } else if f.page.page is None {
        Err(ApplyError::PageNotFound)
    } else if text_lt(hlc@, f.page.page->0.existence_hlc@) {
        Ok(
            (
                one(
                    Write::Tombstone {
                        uuid: p.uuid,
                        kind: ObjectKind::Block,
                        root: Some(p.page_uuid),
                        hlc: f.page.page->0.existence_hlc,
                    },
                ),
                seq![p.uuid, p.page_uuid],
            ),
        )
    } else {
        let row = f.subject.block;
        let current_markdown = if row is Some {
            row->0.markdown_hlc
        } else {
            None
        };
        let current_style = if row is Some {
            row->0.style_hlc
        } else {
            None
        };
        let w = when(
            row is None || text_lt(row->0.existence_hlc@, hlc@),
            one(Write::PutBlock { block: p.uuid }),
        ) + when(f.subject.tombstone is Some, one(Write::DeleteTombstone { uuid: p.uuid })) + when(
            wins(opt_view(f.subject.structure_hlc), hlc@),
            one(Write::StructureIntent { block: p.uuid }),
        ) + markdown_writes(p.uuid, hlc@, current_markdown, row is Some && f.references_changed)
            + when(wins(opt_view(current_style), hlc@), one(Write::SetStyle { block: p.uuid }))
            + seq![
            Write::RequestStructure,
            Write::ReconcileAttachments { owner: AttachmentOwner::Block(p.uuid) },
        ];
        Ok((w, seq![p.uuid, p.page_uuid]))
    }
}

pub open spec fn markdown_op_plan(p: BlockSetMarkdown, hlc: String, f: ApplyFacts) -> PlanResult {
    if conflicts(f.subject, ObjectKind::Block) {
        Err(ApplyError::KindConflict)
    } else if f.subject.tombstone is Some || f.subject.block is None {
        Ok((Seq::empty(), seq![p.uuid]))
    } else {
        Ok(
            (
                markdown_writes(
                    p.uuid,
                    hlc@,
                    f.subject.block->0.markdown_hlc,
                    f.references_changed,
                ),
                seq![p.uuid],
            ),
        )
    }
}

pub open spec fn style_op_plan(p: BlockSetStyle, hlc: String, f: ApplyFacts) -> PlanResult {
    if conflicts(f.subject, ObjectKind::Block) {
        Err(ApplyError::KindConflict)
    } else if f.subject.tombstone is Some {
        Ok((Seq::empty(), seq![p.uuid]))
    } else {
        let current = if f.subject.block is Some {
            f.subject.block->0.style_hlc
        } else {
            None
        };
        Ok((when(wins(opt_view(current), hlc@), one(Write::SetStyle { block: p.uuid })), seq![p.uuid]))
    }
}

pub open spec fn move_op_plan(p: BlockMove, hlc: String, f: ApplyFacts) -> PlanResult {
    if f.page.identity == Some(PageKind::Handwriting) {
        Err(ApplyError::HandwrittenTarget)
    } else if conflicts(f.subject, ObjectKind::Block) || conflicts(f.page, ObjectKind::Page) || (
    p.parent_uuid is Some && parent_conflicts(f)) {
        Err(ApplyError::KindConflict)
    } else if f.subject.tombstone is Some {
        Ok((Seq::empty(), seq![p.uuid, p.page_uuid]))
    } else {
        Ok(
            (
                when(
                    wins(opt_view(f.subject.structure_hlc), hlc@),
                    one(Write::StructureIntent { block: p.uuid }),
                ) + seq![Write::RequestStructure, Write::TouchBlock { block: p.uuid }],
                seq![p.uuid, p.page_uuid],
            ),
        )
    }
}

pub open spec fn block_delete_op_plan(p: BlockDelete, hlc: String, f: ApplyFacts) -> PlanResult {
    if conflicts(f.subject, ObjectKind::Block) || conflicts(f.page, ObjectKind::Page) {
        Err(ApplyError::KindConflict)
    } else if f.subject.block is Some && text_lt(hlc@, f.subject.block->0.existence_hlc@) {
        Ok((Seq::empty(), seq![p.uuid]))
    } else {
        let tombstone = one(
            Write::Tombstone {
                uuid: p.uuid,
                kind: ObjectKind::Block,
                root: Some(p.page_uuid),
                hlc,
            },
        );
        if deletion_took_effect(f.subject, hlc@) {
            Ok(
                (
                    tombstone + seq![
                        Write::DiscardBlockRefs { block: p.uuid },
                        Write::DeleteStructureIntent { block: p.uuid },
                    ] + when(f.subject.block is Some, one(Write::DeleteBlock { block: p.uuid }))
                        + one(Write::RequestStructure),
                    seq![p.uuid, p.page_uuid],
                ),
            )
        } else {
            Ok((tombstone, seq![p.uuid]))
        }
    }
}

/// The attachment intent the replica holds for the operation's owner and hash.
pub open spec fn held_intent(f: ApplyFacts) -> Option<AttachmentIntent> {
    match f.attachment {
        Some((i, _)) => Some(i),
        None => None,
    }
}

/// The attachment intent an operation states.
pub open spec fn stated_intent(
    owner: AttachmentOwner,
    blob_hash: [u8; 32],
    present: bool,
    filename: Option<String>,
    mime: Option<String>,
    size: Option<u64>,
) -> AttachmentIntent {
    AttachmentIntent {
        attachment_uuid: uuid_v5(NAMESPACE_OID, attachment_name(owner, blob_hash@)),
        present,
        filename,
        mime,
        size: size_column(size),
    }
}

pub open spec fn attachment_row_writes(plan: AttachmentPlan, intent: Option<AttachmentIntent>) -> Seq<
    Write,
> {
    match plan {
        AttachmentPlan::Keep => Seq::empty(),
        AttachmentPlan::Remove(u) => one(Write::RemoveAttachmentRow { uuid: u }),
        AttachmentPlan::Upsert(u) => one(
            Write::UpsertAttachmentRow {
                uuid: u,
                filename: intent->0.filename->0,
                mime: intent->0.mime->0,
                size: intent->0.size->0,
            },
        ),
    }
}

pub open spec fn attachment_op_plan(stated: AttachmentIntent, owner: AttachmentOwner, hlc: String, f: ApplyFacts) -> PlanResult {
    if conflicts(f.subject, owner_kind(owner)) {
        Err(ApplyError::KindConflict)
    } else {
        let written = match f.attachment {
            Some((_, c)) => text_lt(c@, hlc@),
            None => true,
        };
        let result = if written {
            Some(stated)
        } else {
            match f.attachment {
                Some((i, _)) => Some(i),
                None => None,
            }
        };
        let owner_exists = match owner {
            AttachmentOwner::Page(_) => f.subject.page is Some,
            AttachmentOwner::Block(_) => f.subject.block is Some,
        };
        Ok(
            (
                when(written, one(Write::AttachmentIntent)) + attachment_row_writes(
                    attachment_plan(result, owner_exists),
                    result,
                ),
                seq![owner_uuid(owner), stated.attachment_uuid],
            ),
        )
    }
}

/// What applying `op` to the replica that `f` describes writes, and which objects it
/// affects: an operation of another workspace is refused, and every operation kind checks
/// the object kinds of the UUIDs it names before anything else.
pub open spec fn apply_plan(op: Op, f: ApplyFacts) -> PlanResult {
    if op.workspace_uuid != f.replica_workspace {
        Err(ApplyError::WorkspaceMismatch)
    } else {
        match op.kind {
            OpKind::InkPublish(p) => ink_plan(p, f),
            OpKind::PageCreate(p) => page_create_op_plan(p, op.hlc, f),
            OpKind::PageAliasSet(p) => alias_op_plan(p, op.hlc, f),
            OpKind::PageSetTitle(p) => title_op_plan(p, op.hlc, f),
            OpKind::PageSetLayout(p) => layout_op_plan(p, op.hlc, f),
            OpKind::PageDelete(p) => page_delete_op_plan(p, op.hlc, f),
            OpKind::BlockCreate(p) => block_create_op_plan(p, op.hlc, f),
            OpKind::BlockSetMarkdown(p) => markdown_op_plan(p, op.hlc, f),
            OpKind::BlockSetStyle(p) => style_op_plan(p, op.hlc, f),
            OpKind::BlockMove(p) => move_op_plan(p, op.hlc, f),
            OpKind::BlockDelete(p) => block_delete_op_plan(p, op.hlc, f),
            OpKind::AttachmentAdd(p) => attachment_op_plan(
                stated_intent(
                    p.owner,
                    p.blob_hash,
                    true,
                    Some(p.filename),
                    Some(p.mime),
                    Some(p.size),
                ),
                p.owner,
                op.hlc,
                f,
            ),
            OpKind::AttachmentRemove(p) => attachment_op_plan(
                stated_intent(p.owner, p.blob_hash, false, None, None, None),
                p.owner,
                op.hlc,
                f,
            ),
        }
    }
}

// ---------------------------------------------------------------------------------------------
// Computing the plan

fn kind_ok(f: &ObjectFacts, expected: ObjectKind) -> (r: bool)
    ensures
        r == !conflicts(*f, expected),
{
    check_kind(f, expected).is_ok()
}

fn took_effect(f: &ObjectFacts, hlc: &str) -> (r: bool)
    ensures
        r == deletion_took_effect(*f, hlc@),
{
    match tomb_clock(f) {
        Some(t) => !str_lt(hlc, t),
        None => true,
    }
}

fn ids(a: u128) -> (r: Vec<u128>)
    ensures
        r@ == seq![a],
{
    let mut v: Vec<u128> = Vec::new();
    v.push(a);
    assert(v@ =~= seq![a]);
    v
}

fn id_pair(a: u128, b: u128) -> (r: Vec<u128>)
    ensures
        r@ == seq![a, b],
{
    let mut v: Vec<u128> = Vec::new();
    v.push(a);
    v.push(b);
    assert(v@ =~= seq![a, b]);
    v
}

fn extend_ids(v: &mut Vec<u128>, more: &Vec<u128>)
    ensures
        final(v)@ == old(v)@ + more@,
{
    let ghost start = v@;
    let mut i: usize = 0;
    while i < more.len()
        invariant
            i <= more@.len(),
            v@ == start + more@.take(i as int),
        decreases more@.len() - i,
    {
        v.push(more[i]);
        assert(more@.take(i + 1) =~= more@.take(i as int).push(more@[i as int]));
        i = i + 1;
    }
    assert(more@.take(more@.len() as int) =~= more@);
}

fn done(writes: Vec<Write>, affected: Vec<u128>) -> (r: Result<ApplyPlan, ApplyError>)
    ensures
        plan_view(r) == Ok::<(Seq<Write>, Seq<u128>), ApplyError>((writes@, affected@)),
{
    Ok(ApplyPlan { writes, affected })
}

fn refuse(e: ApplyError) -> (r: Result<ApplyPlan, ApplyError>)
    ensures
        plan_view(r) == Err::<(Seq<Write>, Seq<u128>), ApplyError>(e),
{
    Err(e)
}

fn plan_ink(p: &InkPublish, f: &ApplyFacts) -> (r: Result<ApplyPlan, ApplyError>)
    ensures
        plan_view(r) == ink_plan(*p, *f),
{
    if !kind_ok(&f.subject, ObjectKind::Page) {
        return refuse(ApplyError::KindConflict);
    }
    let mut w: Vec<Write> = Vec::new();
    w.push(Write::ApplyInkVersion { publication: *p });
    assert(w@ =~= one(Write::ApplyInkVersion { publication: *p }));
    done(w, ids(p.page_uuid))
}

fn plan_alias(p: &PageAliasSet, hlc: &String, f: &ApplyFacts) -> (r: Result<ApplyPlan, ApplyError>)
    ensures
        plan_view(r) == alias_op_plan(*p, *hlc, *f),
{
    if !kind_ok(&f.subject, ObjectKind::Page) {
        return refuse(ApplyError::KindConflict);
    }
    if f.subject.identity.is_none() {
        return refuse(ApplyError::PageNotFound);
    }
    let mut w: Vec<Write> = Vec::new();
    if exec_wins(clock(&f.alias_hlc), hlc.as_str()) {
        w.push(Write::AliasIntent);
        w.push(Write::RequestPageLinks { alias: p.alias.clone() });
    }
    assert(w@ =~= when(
        wins(opt_view(f.alias_hlc), hlc@),
        seq![Write::AliasIntent, Write::RequestPageLinks { alias: p.alias }],
    ));
    done(w, ids(p.uuid))
}

fn plan_title(p: &PageSetTitle, hlc: &String, f: &ApplyFacts) -> (r: Result<ApplyPlan, ApplyError>)
    ensures
        plan_view(r) == title_op_plan(*p, *hlc, *f),
{
    if !kind_ok(&f.subject, ObjectKind::Page) {
        return refuse(ApplyError::KindConflict);
    }
    if let Some(k) = &f.subject.identity {
        if k.is_journal() {
            return refuse(ApplyError::JournalTitle);
        }
    }
    let mut w: Vec<Write> = Vec::new();
    match &f.subject.page {
        Some(row) => if f.subject.tombstone.is_none() {
            push_title_writes(
                &mut w,
                p.uuid,
                hlc.as_str(),
                p.title.is_some(),
                &row.title_hlc,
                &row.normalized_title,
                &f.normalized_title,
                &f.title_holder,
            );
            assert(w@ =~= title_writes(
                p.uuid,
                hlc@,
                p.title is Some,
                row.title_hlc,
                row.normalized_title,
                f.normalized_title,
                f.title_holder,
            ));
        },
        None => {},
    }
    done(w, ids(p.uuid))
}

fn plan_layout(p: &PageSetLayout, hlc: &String, f: &ApplyFacts) -> (r: Result<ApplyPlan, ApplyError>)
    ensures
        plan_view(r) == layout_op_plan(*p, *hlc, *f),
{
    if let Some(PageKind::Handwriting) = f.subject.identity {
        return refuse(ApplyError::HandwrittenTarget);
    }
    if !kind_ok(&f.subject, ObjectKind::Page) {
        return refuse(ApplyError::KindConflict);
    }
    let mut w: Vec<Write> = Vec::new();
    if f.subject.tombstone.is_none() {
        let current = match &f.subject.page {
            Some(row) => clock(&row.layout_hlc),
            None => None,
        };
        if exec_wins(current, hlc.as_str()) {
            w.push(Write::SetLayout { page: p.uuid });
        }
    }
    assert(f.subject.tombstone is None ==> w@ =~= when(
        wins(
            opt_view(
                if f.subject.page is Some {
                    f.subject.page->0.layout_hlc
                } else {
                    None
                },
            ),
            hlc@,
        ),
        one(Write::SetLayout { page: p.uuid }),
    ));
    assert(f.subject.tombstone is Some ==> w@ =~= Seq::<Write>::empty());
    done(w, ids(p.uuid))
}

fn plan_markdown(p: &BlockSetMarkdown, hlc: &String, f: &ApplyFacts) -> (r: Result<ApplyPlan, ApplyError>)
    ensures
        plan_view(r) == markdown_op_plan(*p, *hlc, *f),
{
    if !kind_ok(&f.subject, ObjectKind::Block) {
        return refuse(ApplyError::KindConflict);
    }
    let mut w: Vec<Write> = Vec::new();
    if f.subject.tombstone.is_none() {
        if let Some(row) = &f.subject.block {
            push_markdown_writes(&mut w, p.uuid, hlc.as_str(), &row.markdown_hlc, f.references_changed);
        }
    }
    assert(f.subject.tombstone is Some || f.subject.block is None ==> w@ =~= Seq::<Write>::empty());
    done(w, ids(p.uuid))
}

fn plan_style(p: &BlockSetStyle, hlc: &String, f: &ApplyFacts) -> (r: Result<ApplyPlan, ApplyError>)
    ensures
        plan_view(r) == style_op_plan(*p, *hlc, *f),
{
    if !kind_ok(&f.subject, ObjectKind::Block) {
        return refuse(ApplyError::KindConflict);
    }
    let mut w: Vec<Write> = Vec::new();
    if f.subject.tombstone.is_none() {
        let current = match &f.subject.block {
            Some(row) => clock(&row.style_hlc),
            None => None,
        };
        if exec_wins(current, hlc.as_str()) {
            w.push(Write::SetStyle { block: p.uuid });
        }
    }
    assert(f.subject.tombstone is None ==> w@ =~= when(
        wins(
            opt_view(
                if f.subject.block is Some {
                    f.subject.block->0.style_hlc
                } else {
                    None
                },
            ),
            hlc@,
        ),
        one(Write::SetStyle { block: p.uuid }),
    ));
    assert(f.subject.tombstone is Some ==> w@ =~= Seq::<Write>::empty());
    done(w, ids(p.uuid))
}

/// Whether any UUID a placement names is used as the other object kind.
fn placement_conflicts(parent_uuid: &Option<u128>, f: &ApplyFacts) -> (r: bool)
    ensures
        r == (conflicts(f.subject, ObjectKind::Block) || conflicts(f.page, ObjectKind::Page) || (
        parent_uuid is Some && parent_conflicts(*f))),
{
    if !kind_ok(&f.subject, ObjectKind::Block) || !kind_ok(&f.page, ObjectKind::Page) {
        return true;
    }
    if parent_uuid.is_some() {
        if let Some(pf) = &f.parent {
            return !kind_ok(pf, ObjectKind::Block);
        }
    }
    false
}

fn plan_move(p: &BlockMove, hlc: &String, f: &ApplyFacts) -> (r: Result<ApplyPlan, ApplyError>)
    ensures
        plan_view(r) == move_op_plan(*p, *hlc, *f),
{
    if let Some(PageKind::Handwriting) = f.page.identity {
        return refuse(ApplyError::HandwrittenTarget);
    }
    if placement_conflicts(&p.parent_uuid, f) {
        return refuse(ApplyError::KindConflict);
    }
    let mut w: Vec<Write> = Vec::new();
    if f.subject.tombstone.is_none() {
        if exec_wins(clock(&f.subject.structure_hlc), hlc.as_str()) {
            w.push(Write::StructureIntent { block: p.uuid });
        }
        w.push(Write::RequestStructure);
        w.push(Write::TouchBlock { block: p.uuid });
        assert(w@ =~= when(
            wins(opt_view(f.subject.structure_hlc), hlc@),
            one(Write::StructureIntent { block: p.uuid }),
        ) + seq![Write::RequestStructure, Write::TouchBlock { block: p.uuid }]);
    } else {
        assert(w@ =~= Seq::<Write>::empty());
    }
    done(w, id_pair(p.uuid, p.page_uuid))
}

fn plan_block_delete(p: &BlockDelete, hlc: &String, f: &ApplyFacts) -> (r: Result<ApplyPlan, ApplyError>)
    ensures
        plan_view(r) == block_delete_op_plan(*p, *hlc, *f),
{
    if !kind_ok(&f.subject, ObjectKind::Block) || !kind_ok(&f.page, ObjectKind::Page) {
        return refuse(ApplyError::KindConflict);
    }
    if let Some(row) = &f.subject.block {
        if str_lt(hlc.as_str(), row.existence_hlc.as_str()) {
            let w: Vec<Write> = Vec::new();
            assert(w@ =~= Seq::<Write>::empty());
            return done(w, ids(p.uuid));
        }
    }
    let mut w: Vec<Write> = Vec::new();
    w.push(
        Write::Tombstone {
            uuid: p.uuid,
            kind: ObjectKind::Block,
            root: Some(p.page_uuid),
            hlc: hlc.clone(),
        },
    );
    let ghost tombstone = w@;
    if took_effect(&f.subject, hlc.as_str()) {
        w.push(Write::DiscardBlockRefs { block: p.uuid });
        w.push(Write::DeleteStructureIntent { block: p.uuid });
        if f.subject.block.is_some() {
            w.push(Write::DeleteBlock { block: p.uuid });
        }
        w.push(Write::RequestStructure);
        assert(w@ =~= tombstone + seq![
            Write::DiscardBlockRefs { block: p.uuid },
            Write::DeleteStructureIntent { block: p.uuid },
        ] + when(f.subject.block is Some, one(Write::DeleteBlock { block: p.uuid }))
            + one(Write::RequestStructure));
        done(w, id_pair(p.uuid, p.page_uuid))
    } else {
        done(w, ids(p.uuid))
    }
}

fn plan_page_delete(p: &PageDelete, hlc: &String, f: &ApplyFacts) -> (r: Result<ApplyPlan, ApplyError>)
    ensures
        plan_view(r) == page_delete_op_plan(*p, *hlc, *f),
{
    if !kind_ok(&f.subject, ObjectKind::Page) {
        return refuse(ApplyError::KindConflict);
    }
    if let Some(row) = &f.subject.page {
        if str_lt(hlc.as_str(), row.existence_hlc.as_str()) {
            let w: Vec<Write> = Vec::new();
            assert(w@ =~= Seq::<Write>::empty());
            return done(w, ids(p.uuid));
        }
    }
    let blocks = collect_blocks(&f.page_blocks, hlc.as_str(), false);
    let mut w: Vec<Write> = Vec::new();
    w.push(
        Write::Tombstone {
            uuid: p.uuid,
            kind: ObjectKind::Page,
            root: Some(p.uuid),
            hlc: hlc.clone(),
        },
    );
    push_block_steps(&mut w, BlockStep::Delete, &blocks, p.uuid, hlc);
    let ghost before = w@;
    if took_effect(&f.subject, hlc.as_str()) {
        push_block_steps(&mut w, BlockStep::Discard, &blocks, p.uuid, hlc);
        w.push(Write::DeletePage { page: p.uuid });
        w.push(Write::PurgeInk { page: p.uuid });
        push_link_requests(&mut w, &f.reference_aliases);
    }
    assert(w@ =~= before + when(
        deletion_took_effect(f.subject, hlc@),
        block_steps(BlockStep::Discard, block_ids(f.page_blocks@), p.uuid, *hlc) + seq![
            Write::DeletePage { page: p.uuid },
            Write::PurgeInk { page: p.uuid },
        ] + link_requests(f.reference_aliases@),
    ));
    let mut affected = ids(p.uuid);
    extend_ids(&mut affected, &blocks);
    done(w, affected)
}

fn plan_block_create(p: &BlockCreate, hlc: &String, f: &ApplyFacts) -> (r: Result<ApplyPlan, ApplyError>)
    ensures
        plan_view(r) == block_create_op_plan(*p, *hlc, *f),
{
    if let Some(PageKind::Handwriting) = f.page.identity {
        return refuse(ApplyError::HandwrittenTarget);
    }
    if placement_conflicts(&p.parent_uuid, f) {
        return refuse(ApplyError::KindConflict);
    }
    let mut w: Vec<Write> = Vec::new();
    if tombstone_dominates(tomb_clock(&f.subject), hlc.as_str()) {
        assert(w@ =~= Seq::<Write>::empty());
        return done(w, ids(p.uuid));
    }
    if let Some((ObjectKind::Page, d)) = &f.page.tombstone {
        w.push(
            Write::Tombstone {
                uuid: p.uuid,
                kind: ObjectKind::Block,
                root: Some(p.page_uuid),
                hlc: d.clone(),
            },
        );
        assert(w@ =~= one(
            Write::Tombstone {
                uuid: p.uuid,
                kind: ObjectKind::Block,
                root: Some(p.page_uuid),
                hlc: page_deleted(f.page)->0,
            },
        ));
        return done(w, id_pair(p.uuid, p.page_uuid));
    }
    let page_row = match &f.page.page {
        Some(row) => row,
        None => {
            return refuse(ApplyError::PageNotFound);
        },
    };
    if str_lt(hlc.as_str(), page_row.existence_hlc.as_str()) {
        w.push(
            Write::Tombstone {
                uuid: p.uuid,
                kind: ObjectKind::Block,
                root: Some(p.page_uuid),
                hlc: page_row.existence_hlc.clone(),
            },
        );
        assert(w@ =~= one(
            Write::Tombstone {
                uuid: p.uuid,
                kind: ObjectKind::Block,
                root: Some(p.page_uuid),
                hlc: f.page.page->0.existence_hlc,
            },
        ));
        return done(w, id_pair(p.uuid, p.page_uuid));
    }
    let none: Option<String> = None;
    let (fresh, current_markdown, current_style) = match &f.subject.block {
        Some(row) => (
            str_lt(row.existence_hlc.as_str(), hlc.as_str()),
            &row.markdown_hlc,
            &row.style_hlc,
        ),
        None => (true, &none, &none),
    };
    let row_exists = f.subject.block.is_some();
    if fresh {
        w.push(Write::PutBlock { block: p.uuid });
    }
    if f.subject.tombstone.is_some() {
        w.push(Write::DeleteTombstone { uuid: p.uuid });
    }
    if exec_wins(clock(&f.subject.structure_hlc), hlc.as_str()) {
        w.push(Write::StructureIntent { block: p.uuid });
    }
    let ghost before_markdown = w@;
    push_markdown_writes(
        &mut w,
        p.uuid,
        hlc.as_str(),
        current_markdown,
        row_exists && f.references_changed,
    );
    let ghost after_markdown = w@;
    if exec_wins(clock(current_style), hlc.as_str()) {
        w.push(Write::SetStyle { block: p.uuid });
    }
    w.push(Write::RequestStructure);
    w.push(Write::ReconcileAttachments { owner: AttachmentOwner::Block(p.uuid) });
    proof {
        let row = f.subject.block;
        let cm = if row is Some {
            row->0.markdown_hlc
        } else {
            None
        };
        let cs = if row is Some {
            row->0.style_hlc
        } else {
            None
        };
        assert(*current_markdown == cm);
        assert(*current_style == cs);
        assert(before_markdown =~= when(
            row is None || text_lt(row->0.existence_hlc@, hlc@),
            one(Write::PutBlock { block: p.uuid }),
        ) + when(f.subject.tombstone is Some, one(Write::DeleteTombstone { uuid: p.uuid })) + when(
            wins(opt_view(f.subject.structure_hlc), hlc@),
            one(Write::StructureIntent { block: p.uuid }),
        ));
        assert(w@ =~= after_markdown + when(
            wins(opt_view(cs), hlc@),
            one(Write::SetStyle { block: p.uuid }),
        ) + seq![
            Write::RequestStructure,
            Write::ReconcileAttachments { owner: AttachmentOwner::Block(p.uuid) },
        ]);
    }
    done(w, id_pair(p.uuid, p.page_uuid))
}

fn push_page_create_head(w: &mut Vec<Write>, p: &PageCreate, hlc: &String, f: &ApplyFacts) -> (buried: Vec<u128>)
    ensures
        final(w)@ == old(w)@ + page_create_head(*p, *hlc, *f),
        buried@ == buried_blocks(*hlc, *f),
{
    let ghost start = w@;
    let recreated = match &f.subject.page {
        Some(row) => str_lt(row.existence_hlc.as_str(), hlc.as_str()),
        None => false,
    };
    let stale = if recreated {
        collect_blocks(&f.page_blocks, hlc.as_str(), true)
    } else {
        Vec::new()
    };
    assert(stale@ =~= buried_blocks(*hlc, *f));
    push_block_steps(w, BlockStep::Bury, &stale, p.uuid, hlc);
    w.push(Write::PromoteBlockTombstones { page: p.uuid });
    if f.subject.page.is_none() || recreated {
        w.push(Write::PutPage { page: p.uuid });
    }
    if f.subject.tombstone.is_some() {
        w.push(Write::DeleteTombstone { uuid: p.uuid });
    }
    w.push(Write::MaterializeKind { page: p.uuid, kind: p.kind });
    assert(w@ =~= start + page_create_head(*p, *hlc, *f));
    stale
}

#[verifier::spinoff_prover]
#[verifier::rlimit(40)]
fn push_page_create_rest(w: &mut Vec<Write>, p: &PageCreate, hlc: &String, f: &ApplyFacts) -> (affected: Vec<u128>)
    ensures
        final(w)@ == old(w)@ + page_create_rest(*p, *hlc, *f).0,
        affected@ == page_create_rest(*p, *hlc, *f).1,
{
    let ghost start = w@;
    let stale = push_page_create_head(w, p, hlc, f);
    let none: Option<String> = None;
    let (current_title, previous, current_layout) = match &f.subject.page {
        Some(row) => (&row.title_hlc, &row.normalized_title, &row.layout_hlc),
        None => (&none, &none, &none),
    };
    assert(*current_title == row_title_hlc(f.subject));
    assert(*previous == row_title(f.subject));
    assert(*current_layout == row_layout_hlc(f.subject));
    push_title_writes(
        w,
        p.uuid,
        hlc.as_str(),
        p.title.is_some(),
        current_title,
        previous,
        &f.normalized_title,
        &f.title_holder,
    );
    push_link_requests(w, &f.explicit_aliases);
    let ghost before_layout = w@;
    if exec_wins(clock(current_layout), hlc.as_str()) {
        w.push(Write::SetLayout { page: p.uuid });
    }
    w.push(Write::RequestStructure);
    w.push(Write::ReconcileAttachments { owner: AttachmentOwner::Page(p.uuid) });
    assert(w@ =~= before_layout + when(
        wins(opt_view(row_layout_hlc(f.subject)), hlc@),
        one(Write::SetLayout { page: p.uuid }),
    ) + seq![
        Write::RequestStructure,
        Write::ReconcileAttachments { owner: AttachmentOwner::Page(p.uuid) },
    ]);
    assert(w@ =~= start + page_create_rest(*p, *hlc, *f).0);
    let mut affected = ids(p.uuid);
    extend_ids(&mut affected, &stale);
    affected
}

fn plan_page_create(p: &PageCreate, hlc: &String, f: &ApplyFacts) -> (r: Result<ApplyPlan, ApplyError>)
    ensures
        plan_view(r) == page_create_op_plan(*p, *hlc, *f),
{
    if !kind_ok(&f.subject, ObjectKind::Page) {
        return refuse(ApplyError::KindConflict);
    }
    let action = match ensure_page_identity(f.journal_uuid, p.uuid, p.kind, f.subject.identity) {
        Ok(a) => a,
        Err(e) => {
            return refuse(e);
        },
    };
    let mut w: Vec<Write> = Vec::new();
    if action == IdentityAction::Insert {
        w.push(Write::ReserveIdentity { page: p.uuid, kind: p.kind });
    }
    let ghost reserve = w@;
    assert(reserve =~= when(
        action == IdentityAction::Insert,
        one(Write::ReserveIdentity { page: p.uuid, kind: p.kind }),
    ));
    if tombstone_dominates(tomb_clock(&f.subject), hlc.as_str()) {
        return done(w, ids(p.uuid));
    }
    if p.kind.is_journal() {
        if let Some(row) = &f.subject.page {
            if str_lt(hlc.as_str(), row.existence_hlc.as_str()) {
                w.push(Write::LowerJournalFloor { page: p.uuid, floor: row.existence_hlc.clone() });
            }
            assert(w@ =~= reserve + when(
                text_lt(hlc@, row.existence_hlc@),
                one(Write::LowerJournalFloor { page: p.uuid, floor: row.existence_hlc }),
            ));
            return done(w, ids(p.uuid));
        }
    }
    let affected = push_page_create_rest(&mut w, p, hlc, f);
    done(w, affected)
}

fn plan_attachment_op(
    stated: AttachmentIntent,
    owner: AttachmentOwner,
    hlc: &String,
    f: &ApplyFacts,
) -> (r: Result<ApplyPlan, ApplyError>)
    ensures
        plan_view(r) == attachment_op_plan(stated, owner, *hlc, *f),
{
    if !kind_ok(&f.subject, owner.kind()) {
        return refuse(ApplyError::KindConflict);
    }
    let written = match &f.attachment {
        Some((_, c)) => str_lt(c.as_str(), hlc.as_str()),
        None => true,
    };
    let result: Option<&AttachmentIntent> = if written {
        Some(&stated)
    } else {
        match &f.attachment {
            Some((i, _)) => Some(i),
            None => None,
        }
    };
    let owner_exists = match owner {
        AttachmentOwner::Page(_) => f.subject.page.is_some(),
        AttachmentOwner::Block(_) => f.subject.block.is_some(),
    };
    let mut w: Vec<Write> = Vec::new();
    if written {
        w.push(Write::AttachmentIntent);
    }
    let ghost intent_writes = w@;
    let plan = plan_attachment(result, owner_exists);
    match plan {
        AttachmentPlan::Keep => {},
        AttachmentPlan::Remove(u) => {
            w.push(Write::RemoveAttachmentRow { uuid: u });
        },
        AttachmentPlan::Upsert(u) => {
            if let Some(i) = result {
                if let (Some(name), Some(mime), Some(size)) = (&i.filename, &i.mime, i.size) {
                    w.push(
                        Write::UpsertAttachmentRow {
                            uuid: u,
                            filename: name.clone(),
                            mime: mime.clone(),
                            size,
                        },
                    );
                }
            }
        },
    }
    proof {
        let res = if written {
            Some(stated)
        } else {
            held_intent(*f)
        };
        assert(match result {
            Some(i) => Some(*i),
            None => None,
        } == res);
        assert(w@ =~= intent_writes + attachment_row_writes(attachment_plan(res, owner_exists), res));
    }
    done(w, id_pair(owner.uuid(), stated.attachment_uuid))
}

/// A write at `hlc` lands on a field whose clock is `current`: the field was never
/// written, or its clock is earlier.
pub open spec fn later_than(current: Option<String>, hlc: String) -> bool {
    match current {
        Some(c) => text_lt(c@, hlc@),
        None => true,
    }
}

proof fn lemma_plan_lww(op: Op, facts: ApplyFacts)
    ensures
        forall|c: Option<String>| #[trigger] wins(opt_view(c), op.hlc@) == later_than(c, op.hlc),
        (op.kind is BlockSetMarkdown && facts.subject.block is Some) ==> (markdown_writes(
            op.kind->BlockSetMarkdown_0.uuid,
            op.hlc@,
            facts.subject.block->0.markdown_hlc,
            facts.references_changed,
        ).contains(Write::SetMarkdown { block: op.kind->BlockSetMarkdown_0.uuid }) <==> later_than(
            facts.subject.block->0.markdown_hlc,
            op.hlc,
        )),
{
    if let OpKind::BlockSetMarkdown(p) = op.kind {
        if let Some(b) = facts.subject.block {
            let w = markdown_writes(p.uuid, op.hlc@, b.markdown_hlc, facts.references_changed);
            if later_than(b.markdown_hlc, op.hlc) {
                let k: int = if facts.references_changed { 1 } else { 0 };
                assert(w[k] == Write::SetMarkdown { block: p.uuid });
            } else {
                assert(w =~= Seq::<Write>::empty());
            }
        }
    }
}

/// A page's layout is last-writer-wins: a layout change on a live page that is not
/// handwritten is written exactly when the page's layout clock is earlier than the
/// change's, or the layout was never set; nothing else is written.
pub proof fn lemma_layout_last_writer_wins(op: Op, f: ApplyFacts)
    requires
        op.kind is PageSetLayout,
        op.workspace_uuid == f.replica_workspace,
        f.subject.identity != Some(PageKind::Handwriting),
        !conflicts(f.subject, ObjectKind::Page),
        f.subject.tombstone is None,
    ensures
        apply_plan(op, f) == Ok::<(Seq<Write>, Seq<u128>), ApplyError>(
            (
                if later_than(row_layout_hlc(f.subject), op.hlc) {
                    seq![Write::SetLayout { page: op.kind->PageSetLayout_0.uuid }]
                } else {
                    Seq::empty()
                },
                seq![op.kind->PageSetLayout_0.uuid],
            ),
        ),
{
    lemma_plan_lww(op, f);
    assert(wins(opt_view(row_layout_hlc(f.subject)), op.hlc@) == later_than(row_layout_hlc(f.subject), op.hlc));
}

/// A block's style is last-writer-wins: a style change on a block that is not deleted is
/// written exactly when the block's style clock is earlier than the change's, or the style
/// was never set; nothing else is written.
pub proof fn lemma_style_last_writer_wins(op: Op, f: ApplyFacts)
    requires
        op.kind is BlockSetStyle,
        op.workspace_uuid == f.replica_workspace,
        !conflicts(f.subject, ObjectKind::Block),
        f.subject.tombstone is None,
    ensures
        apply_plan(op, f) == Ok::<(Seq<Write>, Seq<u128>), ApplyError>(
            (
                if later_than(row_style_hlc(f.subject), op.hlc) {
                    seq![Write::SetStyle { block: op.kind->BlockSetStyle_0.uuid }]
                } else {
                    Seq::empty()
                },
                seq![op.kind->BlockSetStyle_0.uuid],
            ),
        ),
{
    lemma_plan_lww(op, f);
    assert(wins(opt_view(row_style_hlc(f.subject)), op.hlc@) == later_than(row_style_hlc(f.subject), op.hlc));
}

proof fn lemma_block_steps_write(step: BlockStep, blocks: Seq<u128>, page: u128, hlc: String, w: Write)
    requires
        w is DeletePage || w is DeleteStructureIntent && step == BlockStep::Discard,
    ensures
        !block_steps(step, blocks, page, hlc).contains(w),
    decreases blocks.len(),
{
    if blocks.len() > 0 {
        lemma_block_steps_write(step, blocks.drop_last(), page, hlc, w);
        let a = block_steps(step, blocks.drop_last(), page, hlc);
        let b = block_step(step, blocks.last(), page, hlc);
        if (a + b).contains(w) {
            let k = choose|k: int| 0 <= k < (a + b).len() && (a + b)[k] == w;
            if k >= a.len() {
                assert(b[k - a.len()] == w);
            } else {
                assert(a[k] == w);
            }
        }
    }
}

proof fn lemma_link_requests_write(aliases: Seq<String>, w: Write)
    requires
        !(w is RequestPageLinks),
    ensures
        !link_requests(aliases).contains(w),
    decreases aliases.len(),
{
    if aliases.len() > 0 {
        lemma_link_requests_write(aliases.drop_last(), w);
        let a = link_requests(aliases.drop_last());
        let b = seq![Write::RequestPageLinks { alias: aliases.last() }];
        if (a + b).contains(w) {
            let k = choose|k: int| 0 <= k < (a + b).len() && (a + b)[k] == w;
            if k >= a.len() {
                assert(b[k - a.len()] == w);
            } else {
                assert(a[k] == w);
            }
        }
    }
}

proof fn lemma_plan_deletions(op: Op, f: ApplyFacts)
    ensures
        (op.kind is BlockDelete && op.workspace_uuid == f.replica_workspace && !conflicts(
            f.subject,
            ObjectKind::Block,
        ) && !conflicts(f.page, ObjectKind::Page) && (f.subject.block is None || !text_lt(
            op.hlc@,
            f.subject.block->0.existence_hlc@,
        ))) ==> (apply_plan(op, f) is Ok && (apply_plan(op, f)->Ok_0.0.contains(
            Write::DeleteStructureIntent { block: op.kind->BlockDelete_0.uuid },
        ) <==> (f.subject.tombstone is None || !text_lt(op.hlc@, tomb_hlc(f.subject)->0)))),
        (op.kind is PageDelete && op.workspace_uuid == f.replica_workspace && !conflicts(
            f.subject,
            ObjectKind::Page,
        ) && (f.subject.page is None || !text_lt(op.hlc@, f.subject.page->0.existence_hlc@)))
            ==> (apply_plan(op, f) is Ok && (apply_plan(op, f)->Ok_0.0.contains(
            Write::DeletePage { page: op.kind->PageDelete_0.uuid },
        ) <==> (f.subject.tombstone is None || !text_lt(op.hlc@, tomb_hlc(f.subject)->0)))),
        (op.kind is PageCreate && f.subject.tombstone is Some && !text_lt(
            tomb_hlc(f.subject)->0,
            op.hlc@,
        ) && apply_plan(op, f) is Ok) ==> !apply_plan(op, f)->Ok_0.0.contains(
            Write::PutPage { page: op.kind->PageCreate_0.uuid },
        ),
{
    if let OpKind::BlockDelete(p) = op.kind {
        if op.workspace_uuid == f.replica_workspace && !conflicts(f.subject, ObjectKind::Block)
            && !conflicts(f.page, ObjectKind::Page) && (f.subject.block is None || !text_lt(
            op.hlc@,
            f.subject.block->0.existence_hlc@,
        )) {
            let w = apply_plan(op, f)->Ok_0.0;
            let target = Write::DeleteStructureIntent { block: p.uuid };
            if deletion_took_effect(f.subject, op.hlc@) {
                assert(w[2] == target);
            } else {
                assert(w.len() == 1);
                assert(!w.contains(target)) by {
                    if w.contains(target) {
                        let k = choose|k: int| 0 <= k < w.len() && w[k] == target;
                        assert(k == 0);
                    }
                }
            }
        }
    }
    if let OpKind::PageDelete(p) = op.kind {
        if op.workspace_uuid == f.replica_workspace && !conflicts(f.subject, ObjectKind::Page) && (
        f.subject.page is None || !text_lt(op.hlc@, f.subject.page->0.existence_hlc@)) {
            let w = apply_plan(op, f)->Ok_0.0;
            let target = Write::DeletePage { page: p.uuid };
            let blocks = block_ids(f.page_blocks@);
            let head = one(
                Write::Tombstone { uuid: p.uuid, kind: ObjectKind::Page, root: Some(p.uuid), hlc: op.hlc },
            ) + block_steps(BlockStep::Delete, blocks, p.uuid, op.hlc);
            lemma_block_steps_write(BlockStep::Delete, blocks, p.uuid, op.hlc, target);
            lemma_block_steps_write(BlockStep::Discard, blocks, p.uuid, op.hlc, target);
            assert(!head.contains(target)) by {
                if head.contains(target) {
                    let k = choose|k: int| 0 <= k < head.len() && head[k] == target;
                    if k > 0 {
                        assert(block_steps(BlockStep::Delete, blocks, p.uuid, op.hlc)[k - 1] == target);
                    }
                }
            }
            if deletion_took_effect(f.subject, op.hlc@) {
                let d = block_steps(BlockStep::Discard, blocks, p.uuid, op.hlc);
                assert(w == head + (d + seq![target, Write::PurgeInk { page: p.uuid }] + link_requests(
                    f.reference_aliases@,
                )));
                assert(w[(head.len() + d.len()) as int] == target);
            } else {
                assert(w =~= head + Seq::<Write>::empty());
            }
        }
    }
    if let OpKind::PageCreate(p) = op.kind {
        if f.subject.tombstone is Some && !text_lt(tomb_hlc(f.subject)->0, op.hlc@) && apply_plan(
            op,
            f,
        ) is Ok {
            let w = apply_plan(op, f)->Ok_0.0;
            let target = Write::PutPage { page: p.uuid };
            assert(dominates(tomb_hlc(f.subject), op.hlc@));
            assert(!w.contains(target)) by {
                if w.contains(target) {
                    let k = choose|k: int| 0 <= k < w.len() && w[k] == target;
                }
            }
        }
    }
}

/// Plans applying `op` to the replica that `facts` describes: the writes, in order, that
/// apply it in one transaction, and the objects it affects. An operation of another
/// workspace is refused; each operation kind checks the object kinds of the UUIDs it
/// names before it reads anything else, and a write lands only where its clock is later
/// than the one the replica holds for the same field.
pub fn plan_apply(op: &Op, facts: &ApplyFacts) -> (r: Result<ApplyPlan, ApplyError>)
    ensures
        plan_view(r) == apply_plan(*op, *facts),
        (op.kind is PageSetLayout && op.workspace_uuid == facts.replica_workspace
            && facts.subject.identity != Some(PageKind::Handwriting) && !conflicts(
            facts.subject,
            ObjectKind::Page,
        ) && facts.subject.tombstone is None) ==> (r is Ok && r->Ok_0.writes@ == (if later_than(
            row_layout_hlc(facts.subject),
            op.hlc,
        ) {
            seq![Write::SetLayout { page: op.kind->PageSetLayout_0.uuid }]
        } else {
            Seq::empty()
        })),
        (op.kind is BlockSetStyle && op.workspace_uuid == facts.replica_workspace && !conflicts(
            facts.subject,
            ObjectKind::Block,
        ) && facts.subject.tombstone is None) ==> (r is Ok && r->Ok_0.writes@ == (if later_than(
            row_style_hlc(facts.subject),
            op.hlc,
        ) {
            seq![Write::SetStyle { block: op.kind->BlockSetStyle_0.uuid }]
        } else {
            Seq::empty()
        })),
        (op.kind is BlockSetMarkdown && op.workspace_uuid == facts.replica_workspace && !conflicts(
            facts.subject,
            ObjectKind::Block,
        ) && facts.subject.tombstone is None && facts.subject.block is Some) ==> (r is Ok && (
        r->Ok_0.writes@.contains(Write::SetMarkdown { block: op.kind->BlockSetMarkdown_0.uuid })
            <==> later_than(facts.subject.block->0.markdown_hlc, op.hlc))),
        (op.kind is PageAliasSet && op.workspace_uuid == facts.replica_workspace && !conflicts(
            facts.subject,
            ObjectKind::Page,
        ) && facts.subject.identity is Some) ==> (r is Ok && r->Ok_0.writes@ == (if later_than(
            facts.alias_hlc,
            op.hlc,
        ) {
            seq![
                Write::AliasIntent,
                Write::RequestPageLinks { alias: op.kind->PageAliasSet_0.alias },
            ]
        } else {
            Seq::empty()
        })),
        op.workspace_uuid != facts.replica_workspace ==> (r is Err && r->Err_0
            == ApplyError::WorkspaceMismatch),
        (op.kind is BlockCreate && op.workspace_uuid == facts.replica_workspace
            && facts.page.identity != Some(PageKind::Handwriting) && !conflicts(
            facts.subject,
            ObjectKind::Block,
        ) && !conflicts(facts.page, ObjectKind::Page) && !parent_conflicts(*facts)
            && facts.subject.tombstone is Some && !text_lt(
            tomb_hlc(facts.subject)->0,
            op.hlc@,
        )) ==> (r is Ok && r->Ok_0.writes@.len() == 0),
        (op.kind is PageCreate && facts.subject.tombstone is Some && !text_lt(
            tomb_hlc(facts.subject)->0,
            op.hlc@,
        ) && r is Ok) ==> !r->Ok_0.writes@.contains(
            Write::PutPage { page: op.kind->PageCreate_0.uuid },
        ),
        (op.kind is BlockDelete && op.workspace_uuid == facts.replica_workspace && !conflicts(
            facts.subject,
            ObjectKind::Block,
        ) && !conflicts(facts.page, ObjectKind::Page) && (facts.subject.block is None || !text_lt(
            op.hlc@,
            facts.subject.block->0.existence_hlc@,
        ))) ==> (r is Ok && r->Ok_0.writes@.len() > 0 && r->Ok_0.writes@[0] == Write::Tombstone {
            uuid: op.kind->BlockDelete_0.uuid,
            kind: ObjectKind::Block,
            root: Some(op.kind->BlockDelete_0.page_uuid),
            hlc: op.hlc,
        } && (r->Ok_0.writes@.contains(
            Write::DeleteStructureIntent { block: op.kind->BlockDelete_0.uuid },
        ) <==> (facts.subject.tombstone is None || !text_lt(
            op.hlc@,
            tomb_hlc(facts.subject)->0,
        )))),
        (op.kind is PageDelete && op.workspace_uuid == facts.replica_workspace && !conflicts(
            facts.subject,
            ObjectKind::Page,
        ) && (facts.subject.page is None || !text_lt(op.hlc@, facts.subject.page->0.existence_hlc@)))
            ==> (r is Ok && r->Ok_0.writes@.len() > 0 && r->Ok_0.writes@[0] == Write::Tombstone {
            uuid: op.kind->PageDelete_0.uuid,
            kind: ObjectKind::Page,
            root: Some(op.kind->PageDelete_0.uuid),
            hlc: op.hlc,
        } && (r->Ok_0.writes@.contains(Write::DeletePage { page: op.kind->PageDelete_0.uuid })
            <==> (facts.subject.tombstone is None || !text_lt(
            op.hlc@,
            tomb_hlc(facts.subject)->0,
        )))),
{
    proof {
        lemma_plan_lww(*op, *facts);
        lemma_plan_deletions(*op, *facts);
    }
    if op.workspace_uuid != facts.replica_workspace {
        return refuse(ApplyError::WorkspaceMismatch);
    }
    let hlc = &op.hlc;
    match &op.kind {
        OpKind::InkPublish(p) => plan_ink(p, facts),
        OpKind::PageCreate(p) => plan_page_create(p, hlc, facts),
        OpKind::PageAliasSet(p) => plan_alias(p, hlc, facts),
        OpKind::PageSetTitle(p) => plan_title(p, hlc, facts),
        OpKind::PageSetLayout(p) => plan_layout(p, hlc, facts),
        OpKind::PageDelete(p) => plan_page_delete(p, hlc, facts),
        OpKind::BlockCreate(p) => plan_block_create(p, hlc, facts),
        OpKind::BlockSetMarkdown(p) => plan_markdown(p, hlc, facts),
        OpKind::BlockSetStyle(p) => plan_style(p, hlc, facts),
        OpKind::BlockMove(p) => plan_move(p, hlc, facts),
        OpKind::BlockDelete(p) => plan_block_delete(p, hlc, facts),
        OpKind::AttachmentAdd(p) => {
            let stated = AttachmentIntent {
                attachment_uuid: attachment_uuid(p.owner, &p.blob_hash),
                present: true,
                filename: Some(p.filename.clone()),
                mime: Some(p.mime.clone()),
                size: stored_size(Some(p.size)),
            };
            plan_attachment_op(stated, p.owner, hlc, facts)
        },
        OpKind::AttachmentRemove(p) => {
            let stated = AttachmentIntent {
                attachment_uuid: attachment_uuid(p.owner, &p.blob_hash),
                present: false,
                filename: None,
                mime: None,
                size: stored_size(None),
            };
            plan_attachment_op(stated, p.owner, hlc, facts)
        },
    }
}

// ---------------------------------------------------------------------------------------------
// Convergence of a block's Markdown

/// The facts `f` with the block's Markdown clock set to `clock`.
pub open spec fn with_markdown_clock(f: ApplyFacts, clock: Option<String>) -> ApplyFacts {
    match f.subject.block {
        Some(row) => ApplyFacts {
            subject: ObjectFacts { block: Some(BlockRow { markdown_hlc: clock, ..row }), ..f.subject },
            ..f
        },
        None => f,
    }
}

/// A block's Markdown clock and Markdown after `op` is applied to the replica `f` describes,
/// when they were `state` before: the operation's own, when its plan sets the block's
/// Markdown, and `state` otherwise.
pub open spec fn markdown_step(f: ApplyFacts, state: (Option<String>, String), op: Op) -> (
    Option<String>,
    String,
) {
    match op.kind {
        OpKind::BlockSetMarkdown(p) => match apply_plan(op, with_markdown_clock(f, state.0)) {
            Ok((w, _)) => if w.contains(Write::SetMarkdown { block: p.uuid }) {
                (Some(op.hlc), p.markdown)
            } else {
                state
            },
            Err(_) => state,
        },
        _ => state,
    }
}

/// Whether a Markdown change `op` reaches the block's Markdown at all, whatever its clock.
pub open spec fn markdown_reaches(f: ApplyFacts, op: Op) -> bool {
    &&& op.kind is BlockSetMarkdown
    &&& op.workspace_uuid == f.replica_workspace
    &&& !conflicts(f.subject, ObjectKind::Block)
    &&& f.subject.tombstone is None
    &&& f.subject.block is Some
}

proof fn lemma_markdown_step(f: ApplyFacts, state: (Option<String>, String), op: Op)
    ensures
        markdown_step(f, state, op) == (if markdown_reaches(f, op) && wins(opt_view(state.0), op.hlc@) {
            (Some(op.hlc), op.kind->BlockSetMarkdown_0.markdown)
        } else {
            state
        }),
{
    let g = with_markdown_clock(f, state.0);
    assert(conflicts(g.subject, ObjectKind::Block) == conflicts(f.subject, ObjectKind::Block));
    if let OpKind::BlockSetMarkdown(p) = op.kind {
        if markdown_reaches(f, op) {
            let w = markdown_writes(p.uuid, op.hlc@, state.0, f.references_changed);
            assert(apply_plan(op, g) == Ok::<(Seq<Write>, Seq<u128>), ApplyError>((w, seq![p.uuid])));
            if wins(opt_view(state.0), op.hlc@) {
                let k: int = if f.references_changed { 1 } else { 0 };
                assert(w[k] == Write::SetMarkdown { block: p.uuid });
                assert(w.contains(Write::SetMarkdown { block: p.uuid }));
            } else {
                assert(w =~= Seq::<Write>::empty());
            }
        } else if op.workspace_uuid == f.replica_workspace && !conflicts(f.subject, ObjectKind::Block) {
            assert(apply_plan(op, g) == Ok::<(Seq<Write>, Seq<u128>), ApplyError>((Seq::empty(), seq![p.uuid])));
            assert(!Seq::<Write>::empty().contains(Write::SetMarkdown { block: p.uuid }));
        }
    }
}

/// A block's Markdown converges on the change with the later clock whatever the order in
/// which two changes with different clocks arrive, and a change delivered again changes
/// nothing.
pub proof fn lemma_markdown_converges(f: ApplyFacts, state: (Option<String>, String), a: Op, b: Op)
    requires
        a.hlc@ != b.hlc@,
    ensures
        markdown_step(f, markdown_step(f, state, a), b) == markdown_step(f, markdown_step(f, state, b), a),
        markdown_step(f, markdown_step(f, state, a), a) == markdown_step(f, state, a),
{
    let sa = markdown_step(f, state, a);
    let sb = markdown_step(f, state, b);
    lemma_markdown_step(f, state, a);
    lemma_markdown_step(f, state, b);
    lemma_markdown_step(f, sa, b);
    lemma_markdown_step(f, sb, a);
    lemma_markdown_step(f, sa, a);
    lemma_text_lt_irreflexive(a.hlc@);
    lemma_text_lt_irreflexive(b.hlc@);
    lemma_text_lt_total(a.hlc@, b.hlc@);
    lemma_text_lt_asymmetric(a.hlc@, b.hlc@);
    if let Some(c) = state.0 {
        let c = c@;
        lemma_text_lt_total(c, a.hlc@);
        lemma_text_lt_total(c, b.hlc@);
        lemma_text_lt_asymmetric(c, a.hlc@);
        lemma_text_lt_asymmetric(c, b.hlc@);
        if text_lt(c, a.hlc@) && text_lt(a.hlc@, b.hlc@) {
            lemma_text_lt_transitive(c, a.hlc@, b.hlc@);
        }
        if text_lt(c, b.hlc@) && text_lt(b.hlc@, a.hlc@) {
            lemma_text_lt_transitive(c, b.hlc@, a.hlc@);
        }
        if text_lt(a.hlc@, c) && text_lt(c, b.hlc@) {
            lemma_text_lt_transitive(a.hlc@, c, b.hlc@);
        }
        if text_lt(b.hlc@, c) && text_lt(c, a.hlc@) {
            lemma_text_lt_transitive(b.hlc@, c, a.hlc@);
        }
    }
}

} // verus!
