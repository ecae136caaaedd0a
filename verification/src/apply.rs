//! The decisions of applying one operation to a replica: which write wins under
//! last-writer-wins clocks, which creation is buried by a deletion, which UUID may take
//! which object kind, and how page identities are stored and read back.
//!
//! Clocks are compared as the text they are stored as; an earlier clock sorts first.

use vstd::prelude::*;
use crate::model::{owner_kind, owner_uuid, AttachmentOwner, JournalDate, ObjectKind, PageKind};
use crate::text::{
    lemma_text_lt_asymmetric, lemma_text_lt_irreflexive, lemma_text_lt_total,
    lemma_text_lt_transitive, str_eq, str_lt, text_lt,
};

verus! {

/// Why an operation cannot be applied to this replica.
#[derive(Debug, Clone, Copy, PartialEq, Eq, Structural)]
pub enum ApplyError {
    /// The operation belongs to another workspace.
    WorkspaceMismatch,
    /// The UUID is already reserved for the other object kind.
    KindConflict,
    /// A journal page does not use the deterministic UUID of its workspace and date.
    JournalUuid,
    /// The page UUID is already reserved for a different page kind.
    PageKindConflict,
    /// The page an operation needs does not exist.
    PageNotFound,
    /// Journal titles are derived from their date and cannot be set.
    JournalTitle,
    /// Text blocks and text layouts are not supported for handwritten notes.
    HandwrittenTarget,
}

pub open spec fn opt_str(s: Option<&str>) -> Option<Seq<char>> {
    match s {
        Some(t) => Some(t@),
        None => None,
    }
}

/// An operation applies only to the replica of its own workspace.
pub fn check_workspace(operation_workspace: u128, replica_workspace: u128) -> (r: Result<
    (),
    ApplyError,
>)
    ensures
        r is Ok <==> operation_workspace == replica_workspace,
        r is Err ==> r == Err::<(), ApplyError>(ApplyError::WorkspaceMismatch),
{
    if operation_workspace != replica_workspace {
        Err(ApplyError::WorkspaceMismatch)
    } else {
        Ok(())
    }
}

/// A UUID cannot become a page while it is a block or a block tombstone, nor a block
/// while it has a page identity or a page tombstone.
pub open spec fn kind_conflicts(
    expected: ObjectKind,
    page_exists: bool,
    block_exists: bool,
    tombstone: Option<ObjectKind>,
) -> bool {
    match expected {
        ObjectKind::Page => block_exists || tombstone == Some(ObjectKind::Block),
        ObjectKind::Block => page_exists || tombstone == Some(ObjectKind::Page),
    }
}

/// Checks that a UUID may be used as `expected`, given whether it has a page identity,
/// whether it is a live block, and the kind of its tombstone if it has one.
pub fn ensure_object_kind(
    expected: ObjectKind,
    page_exists: bool,
    block_exists: bool,
    tombstone: Option<ObjectKind>,
) -> (r: Result<(), ApplyError>)
    ensures
        r is Ok <==> !kind_conflicts(expected, page_exists, block_exists, tombstone),
        r is Err ==> r == Err::<(), ApplyError>(ApplyError::KindConflict),
{
    let conflicts = match expected {
        ObjectKind::Page => block_exists || tombstone == Some(ObjectKind::Block),
        ObjectKind::Block => page_exists || tombstone == Some(ObjectKind::Page),
    };
    if conflicts {
        Err(ApplyError::KindConflict)
    } else {
        Ok(())
    }
}

/// A deletion at `deleted` buries a write at `hlc` unless the write is strictly later.
pub open spec fn dominates(deleted: Option<Seq<char>>, hlc: Seq<char>) -> bool {
    match deleted {
        Some(d) => !text_lt(d, hlc),
        None => false,
    }
}

/// Whether the tombstone of an object, if any, buries a write at `hlc`.
pub fn tombstone_dominates(deleted_hlc: Option<&str>, hlc: &str) -> (r: bool)
    ensures
        r == dominates(opt_str(deleted_hlc), hlc@),
{
    match deleted_hlc {
        Some(d) => !str_lt(d, hlc),
        None => false,
    }
}

/// Whether the tombstone of an object, if any, was written at exactly `hlc`: the deletion
/// at `hlc` is the one that took effect.
pub fn tombstone_equals(deleted_hlc: Option<&str>, hlc: &str) -> (r: bool)
    ensures
        r == (opt_str(deleted_hlc) == Some(hlc@)),
{
    match deleted_hlc {
        Some(d) => str_eq(d, hlc),
        None => false,
    }
}

/// A deletion at `hlc` applies unless the object's current generation is strictly later.
pub fn deletion_applies(existence_hlc: Option<&str>, hlc: &str) -> (r: bool)
    ensures
        r == match existence_hlc {
            Some(e) => !text_lt(hlc@, e@),
            None => true,
        },
{
    match existence_hlc {
        Some(e) => !str_lt(hlc, e),
        None => true,
    }
}

// ---------------------------------------------------------------------------------------------
// Page identities as they are stored

pub open spec fn kind_column(kind: PageKind) -> Seq<char> {
    match kind {
        PageKind::Journal { .. } => "journal"@,
        _ => "note"@,
    }
}

pub open spec fn content_column(kind: PageKind) -> Seq<char> {
    match kind {
        PageKind::Handwriting => "ink"@,
        _ => "text"@,
    }
}

pub open spec fn date_column(kind: PageKind) -> Option<JournalDate> {
    match kind {
        PageKind::Journal { date } => Some(date),
        _ => None,
    }
}

/// The page kind column, journal date column and content type column that store `kind`.
pub fn identity_columns(kind: PageKind) -> (r: (&'static str, Option<JournalDate>, &'static str))
    ensures
        r.0@ == kind_column(kind),
        r.1 == date_column(kind),
        r.2@ == content_column(kind),
{
    match kind {
        PageKind::Note => ("note", None, "text"),
        PageKind::Handwriting => ("note", None, "ink"),
        PageKind::Journal { date } => ("journal", Some(date), "text"),
    }
}

/// The page kind that a kind name and a journal date name together, if they name one.
pub open spec fn kind_from_stored(kind: Seq<char>, date: Option<JournalDate>) -> Option<PageKind> {
    if kind == "note"@ && date is None {
        Some(PageKind::Note)
    } else if kind == "handwriting"@ && date is None {
        Some(PageKind::Handwriting)
    } else if kind == "journal"@ && date is Some {
        Some(PageKind::Journal { date: date->0 })
    } else {
        None
    }
}

/// Reads a page kind back from its kind name and journal date; `None` for any other shape.
pub fn page_kind_from_stored(kind: &str, date: Option<JournalDate>) -> (r: Option<PageKind>)
    ensures
        r == kind_from_stored(kind@, date),
{
    if str_eq(kind, "note") && date.is_none() {
        Some(PageKind::Note)
    } else if str_eq(kind, "handwriting") && date.is_none() {
        Some(PageKind::Handwriting)
    } else if str_eq(kind, "journal") && date.is_some() {
        match date {
            Some(d) => Some(PageKind::Journal { date: d }),
            None => None,
        }
    } else {
        None
    }
}

/// The page kind a stored identity row names: ink content is a handwritten note whatever
/// the kind column says.
pub open spec fn identity_from_row(
    kind: Seq<char>,
    date: Option<JournalDate>,
    content_type: Seq<char>,
) -> Option<PageKind> {
    if content_type == "ink"@ {
        kind_from_stored("handwriting"@, date)
    } else {
        kind_from_stored(kind, date)
    }
}

/// Reads a page identity back from its stored row.
pub fn stored_identity(kind: &str, date: Option<JournalDate>, content_type: &str) -> (r: Option<
    PageKind,
>)
    ensures
        r == identity_from_row(kind@, date, content_type@),
{
    if str_eq(content_type, "ink") {
        page_kind_from_stored("handwriting", date)
    } else {
        page_kind_from_stored(kind, date)
    }
}

/// Reading back the row that stores a page identity gives that identity.
pub proof fn lemma_identity_round_trip(kind: PageKind)
    ensures
        identity_from_row(kind_column(kind), date_column(kind), content_column(kind)) == Some(
            kind,
        ),
{
    reveal_strlit("note");
    reveal_strlit("journal");
    reveal_strlit("handwriting");
    reveal_strlit("ink");
    reveal_strlit("text");
    assert("text"@.len() != "ink"@.len());
    assert("note"@.len() != "handwriting"@.len());
    assert("journal"@ != "note"@);
    assert("journal"@ != "handwriting"@);
}

/// A journal page must use `journal_uuid`, the deterministic UUID of its workspace and
/// date; other pages may use any UUID.
pub fn validate_page_identity(journal_uuid: u128, page_uuid: u128, kind: PageKind) -> (r: Result<
    (),
    ApplyError,
>)
    ensures
        r is Ok <==> !(kind is Journal && page_uuid != journal_uuid),
        r is Err ==> r == Err::<(), ApplyError>(ApplyError::JournalUuid),
{
    if let PageKind::Journal { .. } = kind {
        if page_uuid != journal_uuid {
            return Err(ApplyError::JournalUuid);
        }
    }
    Ok(())
}

/// What reserving a page identity does: the identity is there already, or it is written.
#[derive(Debug, Clone, Copy, PartialEq, Eq, Structural)]
pub enum IdentityAction {
    Keep,
    Insert,
}

pub open spec fn identity_plan(
    journal_uuid: u128,
    page_uuid: u128,
    kind: PageKind,
    existing: Option<PageKind>,
) -> Result<IdentityAction, ApplyError> {
    if kind is Journal && page_uuid != journal_uuid {
        Err(ApplyError::JournalUuid)
    } else {
        match existing {
            Some(e) => if e == kind {
                Ok(IdentityAction::Keep)
            } else {
                Err(ApplyError::PageKindConflict)
            },
            None => Ok(IdentityAction::Insert),
        }
    }
}

/// Reserves `page_uuid` for `kind`: a page UUID keeps the kind it was first given.
/// `existing` is the identity stored for the UUID, if any.
pub fn ensure_page_identity(
    journal_uuid: u128,
    page_uuid: u128,
    kind: PageKind,
    existing: Option<PageKind>,
) -> (r: Result<IdentityAction, ApplyError>)
    ensures
        r == identity_plan(journal_uuid, page_uuid, kind, existing),
{
    validate_page_identity(journal_uuid, page_uuid, kind)?;
    match existing {
        Some(e) => if e == kind {
            Ok(IdentityAction::Keep)
        } else {
            Err(ApplyError::PageKindConflict)
        },
        None => Ok(IdentityAction::Insert),
    }
}

// ---------------------------------------------------------------------------------------------
// Creations and deletions

/// What a page creation does.
#[derive(Debug, Clone, Copy, PartialEq, Eq, Structural)]
pub enum PageCreatePlan {
    /// A deletion at the same or a later clock buries the creation.
    Buried,
    /// The journal page exists already; when `lower_floor`, its generation and the initial
    /// clocks that still equal it move down to the earlier creation clock.
    JournalExists { lower_floor: bool },
    /// The page is created, or renewed; when `recreated`, the creation starts a new
    /// generation and the blocks of the earlier one are buried.
    Create { recreated: bool },
}

pub open spec fn page_create_plan(
    kind: PageKind,
    hlc: Seq<char>,
    tombstone: Option<Seq<char>>,
    existence: Option<Seq<char>>,
) -> PageCreatePlan {
    if dominates(tombstone, hlc) {
        PageCreatePlan::Buried
    } else if kind is Journal && existence is Some {
        PageCreatePlan::JournalExists { lower_floor: text_lt(hlc, existence->0) }
    } else {
        PageCreatePlan::Create {
            recreated: existence is Some && text_lt(existence->0, hlc),
        }
    }
}

/// Decides a page creation at `hlc` from the page's tombstone clock and the clock of its
/// current generation, if they exist. Concurrent journal creations target one UUID, so the
/// earliest of them starts the journal's generation whatever order they arrive in.
pub fn plan_page_create(
    kind: PageKind,
    hlc: &str,
    tombstone: Option<&str>,
    existence: Option<&str>,
) -> (r: PageCreatePlan)
    ensures
        r == page_create_plan(kind, hlc@, opt_str(tombstone), opt_str(existence)),
{
    if tombstone_dominates(tombstone, hlc) {
        return PageCreatePlan::Buried;
    }
    match existence {
        Some(e) => {
            if kind.is_journal() {
                PageCreatePlan::JournalExists { lower_floor: str_lt(hlc, e) }
            } else {
                PageCreatePlan::Create { recreated: str_lt(e, hlc) }
            }
        },
        None => PageCreatePlan::Create { recreated: false },
    }
}

/// What a block creation does.
#[derive(Debug, Clone)]
pub enum BlockCreatePlan {
    /// A deletion of the block at the same or a later clock buries the creation.
    Buried,
    /// The block is buried at once, with its tombstone at the given clock: its page is
    /// deleted, or was recreated after the creation was authored.
    BuryUnder(String),
    /// The block is created, or renewed.
    Create,
}

pub open spec fn block_create_plan(
    hlc: Seq<char>,
    tombstone: Option<Seq<char>>,
    page_tombstone: Option<Seq<char>>,
    page_existence: Option<Seq<char>>,
) -> Option<Result<Option<Seq<char>>, ApplyError>> {
    if dominates(tombstone, hlc) {
        None
    } else if page_tombstone is Some {
        Some(Ok(page_tombstone))
    } else if page_existence is None {
        Some(Err(ApplyError::PageNotFound))
    } else if text_lt(hlc, page_existence->0) {
        Some(Ok(page_existence))
    } else {
        Some(Ok(None))
    }
}

/// The outcome of `plan_block_create` in the terms of `block_create_plan`: `None` when
/// buried by the block's own tombstone, `Ok(Some(c))` when buried under clock `c`,
/// `Ok(None)` when created.
pub open spec fn block_plan_view(r: Result<BlockCreatePlan, ApplyError>) -> Option<
    Result<Option<Seq<char>>, ApplyError>,
> {
    match r {
        Ok(BlockCreatePlan::Buried) => None,
        Ok(BlockCreatePlan::BuryUnder(c)) => Some(Ok(Some(c@))),
        Ok(BlockCreatePlan::Create) => Some(Ok(None)),
        Err(e) => Some(Err(e)),
    }
}

/// Decides a block creation at `hlc` from the block's tombstone clock, its page's
/// tombstone clock and the clock of its page's current generation. A delayed creation
/// from a deleted generation never attaches itself to a recreated page.
pub fn plan_block_create(
    hlc: &str,
    tombstone: Option<&str>,
    page_tombstone: Option<&str>,
    page_existence: Option<&str>,
) -> (r: Result<BlockCreatePlan, ApplyError>)
    ensures
        block_plan_view(r) == block_create_plan(
            hlc@,
            opt_str(tombstone),
            opt_str(page_tombstone),
            opt_str(page_existence),
        ),
{
    if tombstone_dominates(tombstone, hlc) {
        return Ok(BlockCreatePlan::Buried);
    }
    if let Some(deleted) = page_tombstone {
        return Ok(BlockCreatePlan::BuryUnder(deleted.to_string()));
    }
    match page_existence {
        None => Err(ApplyError::PageNotFound),
        Some(e) => if str_lt(hlc, e) {
            Ok(BlockCreatePlan::BuryUnder(e.to_string()))
        } else {
            Ok(BlockCreatePlan::Create)
        },
    }
}

/// A title change is refused on a journal page, and has no effect on a deleted page:
/// `Ok(true)` when it is to be applied. `identity` is the page's stored identity.
pub fn plan_set_title(identity: Option<PageKind>, tombstoned: bool) -> (r: Result<bool, ApplyError>)
    ensures
        r == (if identity is Some && identity->0 is Journal {
            Err::<bool, ApplyError>(ApplyError::JournalTitle)
        } else {
            Ok(!tombstoned)
        }),
{
    match identity {
        Some(k) => if k.is_journal() {
            return Err(ApplyError::JournalTitle);
        },
        None => {},
    }
    Ok(!tombstoned)
}

/// What a title write does under last-writer-wins.
#[derive(Debug, Clone, Copy, PartialEq, Eq, Structural)]
pub enum TitlePlan {
    /// The page's current title is as late or later: nothing changes.
    Unchanged,
    /// Another page holds the title with a clock as late or later: this page loses its title.
    Yield,
    /// The title is taken; `clear` is the page that held it before, which loses it.
    Take { clear: Option<u128> },
}

pub open spec fn title_plan(
    current_hlc: Option<Seq<char>>,
    hlc: Seq<char>,
    titled: bool,
    holder: Option<(u128, Option<Seq<char>>)>,
) -> TitlePlan {
    if current_hlc is Some && !text_lt(current_hlc->0, hlc) {
        TitlePlan::Unchanged
    } else {
        match holder {
            Some((u, held)) => if !titled {
                TitlePlan::Take { clear: None }
            } else if held is Some && !text_lt(held->0, hlc) {
                TitlePlan::Yield
            } else {
                TitlePlan::Take { clear: Some(u) }
            },
            None => TitlePlan::Take { clear: None },
        }
    }
}

/// Decides a title write at `hlc` on a page whose title clock is `current_hlc`. `titled`
/// says whether the write sets a title rather than clearing it; `holder` is the other page
/// that holds the same normalized title, with its title clock, if any. Titles are unique
/// among pages: the later write keeps a title, and the earlier holder gives it up.
pub fn plan_page_title(
    current_hlc: Option<&str>,
    hlc: &str,
    titled: bool,
    holder: Option<(u128, Option<&str>)>,
) -> (r: TitlePlan)
    ensures
        r == title_plan(
            opt_str(current_hlc),
            hlc@,
            titled,
            match holder {
                Some((u, h)) => Some((u, opt_str(h))),
                None => None,
            },
        ),
{
    if let Some(c) = current_hlc {
        if !str_lt(c, hlc) {
            return TitlePlan::Unchanged;
        }
    }
    if titled {
        if let Some((u, h)) = holder {
            if let Some(held) = h {
                if !str_lt(held, hlc) {
                    return TitlePlan::Yield;
                }
            }
            return TitlePlan::Take { clear: Some(u) };
        }
    }
    TitlePlan::Take { clear: None }
}

/// Text content and text layouts may not target a handwritten note. `identity` is the
/// page's stored identity.
pub fn ensure_text_note_target(identity: Option<PageKind>) -> (r: Result<(), ApplyError>)
    ensures
        r == (if identity == Some(PageKind::Handwriting) {
            Err::<(), ApplyError>(ApplyError::HandwrittenTarget)
        } else {
            Ok(())
        }),
{
    if identity == Some(PageKind::Handwriting) {
        Err(ApplyError::HandwrittenTarget)
    } else {
        Ok(())
    }
}

/// An alias names a page only when exactly one live page carries it. `candidates` holds
/// the first pages that carry it (two are enough to tell).
pub fn unique_candidate(candidates: &[u128]) -> (r: Option<u128>)
    ensures
        r == (if candidates@.len() == 1 {
            Some(candidates@[0])
        } else {
            None::<u128>
        }),
{
    if candidates.len() == 1 {
        Some(candidates[0])
    } else {
        None
    }
}

/// `s` without the occurrences of `x`, in order.
pub open spec fn without(s: Seq<u128>, x: u128) -> Seq<u128>
    decreases s.len(),
{
    if s.len() == 0 {
        s
    } else if s.last() == x {
        without(s.drop_last(), x)
    } else {
        without(s.drop_last(), x).push(s.last())
    }
}

/// The blocks a block's references point at: a block never refers to itself.
pub fn block_ref_targets(block_uuid: u128, targets: &[u128]) -> (r: Vec<u128>)
    ensures
        r@ == without(targets@, block_uuid),
{
    let mut out: Vec<u128> = Vec::new();
    let mut i: usize = 0;
    assert(targets@.take(0) =~= Seq::<u128>::empty());
    while i < targets.len()
        invariant
            i <= targets@.len(),
            out@ == without(targets@.take(i as int), block_uuid),
        decreases targets@.len() - i,
    {
        let t = targets[i];
        assert(targets@.take(i + 1).drop_last() =~= targets@.take(i as int));
        assert(targets@.take(i + 1).last() == t);
        if t != block_uuid {
            out.push(t);
        }
        i = i + 1;
    }
    assert(targets@.take(targets@.len() as int) =~= targets@);
    out
}

/// The stored attachment intent for one owner and content hash.
#[derive(Debug, Clone)]
pub struct AttachmentIntent {
    pub attachment_uuid: u128,
    pub present: bool,
    pub filename: Option<String>,
    pub mime: Option<String>,
    pub size: Option<i64>,
}

/// What reconciling an attachment does to the visible attachment rows.
#[derive(Debug, Clone, Copy, PartialEq, Eq, Structural)]
pub enum AttachmentPlan {
    /// No intent, or an intent without complete metadata: nothing changes.
    Keep,
    /// The attachment was removed, or its owner is gone: its row is deleted.
    Remove(u128),
    /// The attachment is present on a live owner: its row is written.
    Upsert(u128),
}

pub open spec fn attachment_plan(intent: Option<AttachmentIntent>, owner_exists: bool) -> AttachmentPlan {
    match intent {
        None => AttachmentPlan::Keep,
        Some(i) => if !i.present || !owner_exists {
            AttachmentPlan::Remove(i.attachment_uuid)
        } else if i.filename is Some && i.mime is Some && i.size is Some {
            AttachmentPlan::Upsert(i.attachment_uuid)
        } else {
            AttachmentPlan::Keep
        },
    }
}

/// Decides what the visible row of an attachment becomes, from its last-writer-wins
/// intent and whether its owner is live.
pub fn plan_attachment(intent: Option<&AttachmentIntent>, owner_exists: bool) -> (r: AttachmentPlan)
    ensures
        r == attachment_plan(
            match intent {
                Some(i) => Some(*i),
                None => None,
            },
            owner_exists,
        ),
{
    match intent {
        None => AttachmentPlan::Keep,
        Some(i) => if !i.present || !owner_exists {
            AttachmentPlan::Remove(i.attachment_uuid)
        } else if i.filename.is_some() && i.mime.is_some() && i.size.is_some() {
            AttachmentPlan::Upsert(i.attachment_uuid)
        } else {
            AttachmentPlan::Keep
        },
    }
}

// ---------------------------------------------------------------------------------------------
// Convergence

/// The clock a last-writer-wins field holds after a write at `incoming` is offered to it,
/// by the rule `hlc_wins` decides with.
pub open spec fn lww(current: Option<Seq<char>>, incoming: Seq<char>) -> Option<Seq<char>> {
    match current {
        Some(c) => if text_lt(c, incoming) {
            Some(incoming)
        } else {
            current
        },
        None => Some(incoming),
    }
}

/// Last-writer-wins converges: two writes leave a field with the same clock whichever
/// arrives first, and a write offered again changes nothing.
pub proof fn lemma_lww_converges(current: Option<Seq<char>>, a: Seq<char>, b: Seq<char>)
    ensures
        lww(lww(current, a), b) == lww(lww(current, b), a),
        lww(lww(current, a), a) == lww(current, a),
{
    lemma_text_lt_irreflexive(a);
    lemma_text_lt_irreflexive(b);
    lemma_text_lt_total(a, b);
    lemma_text_lt_asymmetric(a, b);
    match current {
        Some(c) => {
            lemma_text_lt_total(c, a);
            lemma_text_lt_total(c, b);
            lemma_text_lt_asymmetric(c, a);
            lemma_text_lt_asymmetric(c, b);
            lemma_text_lt_irreflexive(c);
            if text_lt(c, a) && text_lt(a, b) {
                lemma_text_lt_transitive(c, a, b);
            }
            if text_lt(c, b) && text_lt(b, a) {
                lemma_text_lt_transitive(c, b, a);
            }
            if text_lt(a, c) && text_lt(c, b) {
                lemma_text_lt_transitive(a, c, b);
            }
            if text_lt(b, c) && text_lt(c, a) {
                lemma_text_lt_transitive(b, c, a);
            }
        },
        None => {},
    }
}

/// The clock that starts a journal page's generation after a creation at `hlc`, when no
/// deletion buries it, by the rule `plan_page_create` decides with.
pub open spec fn journal_generation(existence: Option<Seq<char>>, hlc: Seq<char>, date: JournalDate) -> Seq<
    char,
> {
    match page_create_plan(PageKind::Journal { date }, hlc, None, existence) {
        PageCreatePlan::JournalExists { lower_floor } => if lower_floor {
            hlc
        } else {
            existence->0
        },
        _ => hlc,
    }
}

/// Concurrent creations of one journal page agree on its generation whatever order they
/// arrive in: the earliest creation starts it.
pub proof fn lemma_journal_generation_converges(
    existence: Option<Seq<char>>,
    a: Seq<char>,
    b: Seq<char>,
    date: JournalDate,
)
    ensures
        journal_generation(Some(journal_generation(existence, a, date)), b, date)
            == journal_generation(Some(journal_generation(existence, b, date)), a, date),
{
    lemma_text_lt_total(a, b);
    lemma_text_lt_asymmetric(a, b);
    match existence {
        Some(e) => {
            lemma_text_lt_total(e, a);
            lemma_text_lt_total(e, b);
            lemma_text_lt_asymmetric(e, a);
            lemma_text_lt_asymmetric(e, b);
            if text_lt(a, e) && text_lt(e, b) {
                lemma_text_lt_transitive(a, e, b);
            }
            if text_lt(b, e) && text_lt(e, a) {
                lemma_text_lt_transitive(b, e, a);
            }
            if text_lt(a, b) && text_lt(b, e) {
                lemma_text_lt_transitive(a, b, e);
            }
            if text_lt(b, a) && text_lt(a, e) {
                lemma_text_lt_transitive(b, a, e);
            }
        },
        None => {},
    }
}

/// A creation never outlives a deletion at the same or a later clock: it is buried,
/// whatever state the page or block is in.
pub proof fn lemma_deletion_buries_creation(
    kind: PageKind,
    hlc: Seq<char>,
    deleted: Seq<char>,
    existence: Option<Seq<char>>,
    page_tombstone: Option<Seq<char>>,
    page_existence: Option<Seq<char>>,
)
    requires
        !text_lt(deleted, hlc),
    ensures
        page_create_plan(kind, hlc, Some(deleted), existence) == PageCreatePlan::Buried,
        block_create_plan(hlc, Some(deleted), page_tombstone, page_existence) is None,
{
}

// ---------------------------------------------------------------------------------------------
// Attachment rows as they are stored

pub open spec fn size_column(size: Option<u64>) -> Option<i64> {
    match size {
        Some(n) => if n <= i64::MAX {
            Some(n as i64)
        } else {
            None
        },
        None => None,
    }
}

pub open spec fn size_read(size: Option<i64>) -> Option<u64> {
    match size {
        Some(n) => if n >= 0 {
            Some(n as u64)
        } else {
            None
        },
        None => None,
    }
}

/// The size column of an attachment intent: a size that does not fit a signed 64-bit
/// integer is stored as absent.
pub fn stored_size(size: Option<u64>) -> (r: Option<i64>)
    ensures
        r == size_column(size),
{
    match size {
        Some(n) => if n <= 0x7fff_ffff_ffff_ffffu64 {
            Some(n as i64)
        } else {
            None
        },
        None => None,
    }
}

/// Reads an attachment size back from its column: a negative value reads as absent.
pub fn size_from_stored(size: Option<i64>) -> (r: Option<u64>)
    ensures
        r == size_read(size),
{
    match size {
        Some(n) => if n >= 0 {
            Some(n as u64)
        } else {
            None
        },
        None => None,
    }
}

/// The owner an attachment row names by its owner kind and owner UUID columns.
pub fn owner_from_stored(kind: ObjectKind, uuid: u128) -> (r: AttachmentOwner)
    ensures
        owner_kind(r) == kind,
        owner_uuid(r) == uuid,
{
    match kind {
        ObjectKind::Page => AttachmentOwner::Page(uuid),
        ObjectKind::Block => AttachmentOwner::Block(uuid),
    }
}

/// An attachment row reads back as it was written: its owner from the kind and UUID
/// columns, and any size that a present attachment may have from the size column.
pub proof fn lemma_attachment_row_round_trip(owner: AttachmentOwner, read: AttachmentOwner, size: u64)
    requires
        owner_kind(read) == owner_kind(owner),
        owner_uuid(read) == owner_uuid(owner),
        size <= i64::MAX,
    ensures
        read == owner,
        size_read(size_column(Some(size))) == Some(size),
{
}

/// The clock of the title another page holds, if it has one.
pub open spec fn held_clock(holder: Option<(u128, Option<Seq<char>>)>) -> Option<Seq<char>> {
    match holder {
        Some((_, c)) => c,
        None => None,
    }
}

/// The page that holds the title.
pub open spec fn held_by(holder: Option<(u128, Option<Seq<char>>)>) -> u128 {
    match holder {
        Some((u, _)) => u,
        None => 0,
    }
}

/// Titles are last-writer-wins and unique among pages: a title write no later than the
/// page's title clock changes nothing; otherwise a page that holds the same title with a
/// clock as late or later keeps it and this page gives its title up, and an earlier holder
/// loses the title to this page.
pub proof fn lemma_title_rules(
    current: Option<Seq<char>>,
    hlc: Seq<char>,
    titled: bool,
    holder: Option<(u128, Option<Seq<char>>)>,
)
    ensures
        current is Some && !text_lt(current->0, hlc) ==> title_plan(current, hlc, titled, holder)
            == TitlePlan::Unchanged,
        (current is None || text_lt(current->0, hlc)) && holder is None ==> title_plan(
            current,
            hlc,
            titled,
            holder,
        ) == (TitlePlan::Take { clear: None }),
        (current is None || text_lt(current->0, hlc)) && titled && holder is Some && held_clock(holder) is Some
            && !text_lt(held_clock(holder)->0, hlc) ==> title_plan(current, hlc, titled, holder)
            == TitlePlan::Yield,
        (current is None || text_lt(current->0, hlc)) && titled && holder is Some && (held_clock(holder) is None
            || text_lt(held_clock(holder)->0, hlc)) ==> title_plan(current, hlc, titled, holder) == (
        TitlePlan::Take { clear: Some(held_by(holder)) }),
{
}

/// An attachment row follows its intent and its owner: no intent leaves the row alone; a
/// removed attachment, or one whose owner is gone, loses its row; a present attachment on a
/// live owner with its filename, type and size gets its row written.
pub proof fn lemma_attachment_rules(intent: Option<AttachmentIntent>, owner_exists: bool)
    ensures
        intent is None ==> attachment_plan(intent, owner_exists) == AttachmentPlan::Keep,
        intent is Some && (!intent->0.present || !owner_exists) ==> attachment_plan(
            intent,
            owner_exists,
        ) == AttachmentPlan::Remove(intent->0.attachment_uuid),
        intent is Some && intent->0.present && owner_exists && intent->0.filename is Some
            && intent->0.mime is Some && intent->0.size is Some ==> attachment_plan(
            intent,
            owner_exists,
        ) == AttachmentPlan::Upsert(intent->0.attachment_uuid),
{
}

} // verus!