//! A full sync snapshot of a workspace, and the rules it must meet before a replica
//! replaces its own state with it.

use vstd::prelude::*;
use std::collections::{HashMap, HashSet};
use crate::model::{AttachmentOwner, JournalDate, ObjectKind, PageKind};
use crate::operation::{filename_ok, opt_view, validate_attachment_filename, InkPublish, FORMAT_VERSION};
use crate::identity::{attachment_name, attachment_uuid, uuid_v5, NAMESPACE_OID};
use crate::text::{blank, is_blank};

verus! {

broadcast use vstd::std_specs::hash::group_hash_axioms;

/// One published handwriting version carried by a snapshot.
#[derive(Debug, Clone)]
pub struct InkVersion {
    pub publication: InkPublish,
}

/// The immutable kind a page UUID is reserved for.
#[derive(Debug, Clone, Copy, PartialEq, Eq, Structural)]
pub struct SnapshotPageIdentity {
    pub uuid: u128,
    pub kind: PageKind,
}

#[derive(Debug, Clone)]
pub struct SnapshotPage {
    pub uuid: u128,
    pub kind: PageKind,
    pub title: Option<String>,
    pub layout: String,
    pub title_hlc: Option<String>,
    pub layout_hlc: Option<String>,
    pub existence_hlc: String,
    pub created_at: i64,
    pub updated_at: i64,
}

#[derive(Debug, Clone)]
pub struct SnapshotPageAlias {
    pub page_uuid: u128,
    pub alias: String,
    pub hlc: String,
    pub present: bool,
}

#[derive(Debug, Clone)]
pub struct SnapshotBlock {
    pub uuid: u128,
    pub page_uuid: u128,
    pub parent_uuid: Option<u128>,
    pub order_key: String,
    pub style: String,
    pub markdown: String,
    pub markdown_hlc: Option<String>,
    pub style_hlc: Option<String>,
    pub structure_hlc: Option<String>,
    pub existence_hlc: String,
    pub created_at: i64,
    pub updated_at: i64,
}

/// The last-writer-wins placement intent of a block, as authored.
#[derive(Debug, Clone)]
pub struct SnapshotBlockStructure {
    pub block_uuid: u128,
    pub page_uuid: u128,
    pub parent_uuid: Option<u128>,
    pub order_key: String,
    pub hlc: String,
}

#[derive(Debug, Clone)]
pub struct SnapshotTombstone {
    pub uuid: u128,
    pub object_kind: ObjectKind,
    pub deleted_hlc: String,
    pub root_page_uuid: Option<u128>,
}

#[derive(Debug, Clone)]
pub struct SnapshotAttachment {
    pub owner: AttachmentOwner,
    pub blob_hash: [u8; 32],
    pub attachment_uuid: u128,
    pub hlc: String,
    pub present: bool,
    pub filename: Option<String>,
    pub mime: Option<String>,
    pub size: Option<u64>,
}

#[derive(Debug, Clone)]
pub struct SyncSnapshot {
    pub ink_versions: Vec<InkVersion>,
    pub format_version: u32,
    pub workspace_uuid: u128,
    pub seq: u64,
    pub page_identities: Vec<SnapshotPageIdentity>,
    pub pages: Vec<SnapshotPage>,
    pub page_aliases: Vec<SnapshotPageAlias>,
    pub blocks: Vec<SnapshotBlock>,
    pub structures: Vec<SnapshotBlockStructure>,
    pub tombstones: Vec<SnapshotTombstone>,
    pub attachments: Vec<SnapshotAttachment>,
}

/// The rule of a consistent snapshot that a snapshot breaks.
#[derive(Debug, Clone, Copy, PartialEq, Eq, Structural)]
pub enum SnapshotError {
    /// The workspace UUID is nil.
    NilWorkspace,
    /// A journal page does not use the deterministic UUID of its workspace and date.
    JournalUuid,
    /// Two page identities share a UUID.
    DuplicatePageIdentity,
    /// Two journal identities share a date.
    DuplicateJournalDate,
    /// A handwriting publication fails its format's checks.
    MalformedInk,
    /// A handwriting version repeats a version UUID or names no handwriting identity.
    InvalidInkVersion,
    /// A page has no identity of its own kind.
    PageWithoutIdentity,
    /// A journal page carries a stored title.
    JournalTitle,
    /// Two pages share a UUID.
    DuplicatePage,
    /// An alias names a UUID that is no page identity.
    AliasUnknownPage,
    /// A page carries the same alias twice.
    DuplicateAlias,
    /// A block uses a UUID reserved by a page identity.
    BlockIsPage,
    /// Two blocks share a UUID.
    DuplicateBlock,
    /// A text block sits in a handwritten note.
    BlockInHandwriting,
    /// A block sits on a page the snapshot does not hold.
    BlockMissingPage,
    /// Two tombstones share a UUID.
    DuplicateTombstone,
    /// A tombstoned UUID is live, or a live object of the other kind.
    TombstoneLive,
    /// A page tombstone has no page identity.
    PageTombstoneWithoutIdentity,
    /// A page tombstone's root is not the page itself.
    PageTombstoneRoot,
    /// A block tombstone has lost its root page.
    BlockTombstoneRoot,
    /// A block's materialized parent is not a block of the snapshot.
    MissingParent,
    /// A block's materialized parent sits on another page.
    ParentOnOtherPage,
    /// A structure intent places a block into a handwritten note.
    StructureInHandwriting,
    /// Two structure intents name the same block.
    DuplicateStructure,
    /// A structure intent names a block the snapshot does not hold.
    StructureMissingBlock,
    /// A structure intent and its block disagree on the page, or the page is missing.
    StructurePageMismatch,
    /// A block's clock or order key differs from its structure intent.
    StructureMismatch,
    /// A structure intent's parent block sits on another page.
    RawParentOtherPage,
    /// A structure intent's parent is neither a block nor a block tombstone.
    RawParentUnknown,
    /// A block has no structure intent.
    BlockWithoutStructure,
    /// Two attachments share an owner and hash, or an attachment UUID.
    DuplicateAttachment,
    /// An attachment's owner is neither live nor tombstoned as that kind.
    AttachmentOwnerUnknown,
}

pub open spec fn is_identity(s: SyncSnapshot, u: u128) -> bool {
    exists|i: int|
        0 <= i < s.page_identities@.len() && (#[trigger] s.page_identities@[i]).uuid == u
}

pub open spec fn has_identity(s: SyncSnapshot, u: u128, k: PageKind) -> bool {
    exists|i: int|
        0 <= i < s.page_identities@.len() && #[trigger] s.page_identities@[i] == (
        SnapshotPageIdentity { uuid: u, kind: k })
}

pub open spec fn is_page(s: SyncSnapshot, u: u128) -> bool {
    exists|i: int| 0 <= i < s.pages@.len() && (#[trigger] s.pages@[i]).uuid == u
}

pub open spec fn is_block(s: SyncSnapshot, u: u128) -> bool {
    exists|i: int| 0 <= i < s.blocks@.len() && (#[trigger] s.blocks@[i]).uuid == u
}

/// A block with UUID `u` sits on a page other than `page`.
pub open spec fn block_elsewhere(s: SyncSnapshot, u: u128, page: u128) -> bool {
    exists|k: int|
        0 <= k < s.blocks@.len() && (#[trigger] s.blocks@[k]).uuid == u && s.blocks@[k].page_uuid
            != page
}

pub open spec fn tombstoned_as(s: SyncSnapshot, u: u128, kind: ObjectKind) -> bool {
    exists|i: int|
        0 <= i < s.tombstones@.len() && (#[trigger] s.tombstones@[i]).uuid == u
            && s.tombstones@[i].object_kind == kind
}

pub open spec fn has_structure(s: SyncSnapshot, u: u128) -> bool {
    exists|i: int| 0 <= i < s.structures@.len() && (#[trigger] s.structures@[i]).block_uuid == u
}

pub open spec fn journal_uuid_wrong(s: SyncSnapshot, journal: Seq<u128>, i: int) -> bool {
    s.page_identities@[i].kind is Journal && s.page_identities@[i].uuid != journal[i]
}

pub open spec fn same_journal_date(a: SnapshotPageIdentity, b: SnapshotPageIdentity) -> bool {
    &&& a.kind is Journal
    &&& b.kind is Journal
    &&& a.kind->date == b.kind->date
}

pub open spec fn tombstone_live(s: SyncSnapshot, t: SnapshotTombstone) -> bool {
    match t.object_kind {
        ObjectKind::Page => is_page(s, t.uuid) || is_block(s, t.uuid),
        ObjectKind::Block => is_block(s, t.uuid) || is_identity(s, t.uuid),
    }
}

pub open spec fn owner_known(s: SyncSnapshot, owner: AttachmentOwner) -> bool {
    match owner {
        AttachmentOwner::Page(u) => is_page(s, u) || tombstoned_as(s, u, ObjectKind::Page),
        AttachmentOwner::Block(u) => is_block(s, u) || tombstoned_as(s, u, ObjectKind::Block),
    }
}

pub open spec fn structure_disagrees(st: SnapshotBlockStructure, b: SnapshotBlock) -> bool {
    opt_view(b.structure_hlc) != Some(st.hlc@) || b.order_key@ != st.order_key@
}

pub open spec fn same_attachment(a: SnapshotAttachment, b: SnapshotAttachment) -> bool {
    (a.owner == b.owner && a.blob_hash@ == b.blob_hash@) || a.attachment_uuid == b.attachment_uuid
}

/// Whether the snapshot breaks the rule that `e` names. `journal[i]` is the deterministic
/// UUID of the journal page for the date of identity `i`, where that identity is a journal.
pub open spec fn breaks(s: SyncSnapshot, journal: Seq<u128>, e: SnapshotError) -> bool {
    let ids = s.page_identities@;
    let inks = s.ink_versions@;
    let pages = s.pages@;
    let aliases = s.page_aliases@;
    let bs = s.blocks@;
    let ts = s.tombstones@;
    let sts = s.structures@;
    let atts = s.attachments@;
    match e {
        SnapshotError::NilWorkspace => s.workspace_uuid == 0,
        SnapshotError::JournalUuid => exists|i: int|
            0 <= i < ids.len() && #[trigger] journal_uuid_wrong(s, journal, i),
        SnapshotError::DuplicatePageIdentity => exists|i: int, j: int|
            0 <= i < j < ids.len() && #[trigger] ids[i].uuid == #[trigger] ids[j].uuid,
        SnapshotError::DuplicateJournalDate => exists|i: int, j: int|
            0 <= i < j < ids.len() && #[trigger] same_journal_date(ids[i], ids[j]),
        SnapshotError::MalformedInk => exists|i: int|
            0 <= i < inks.len() && !(#[trigger] inks[i]).publication.well_formed,
        SnapshotError::InvalidInkVersion => (exists|i: int, j: int|
            0 <= i < j < inks.len() && (#[trigger] inks[i]).publication.version_uuid == (
            #[trigger] inks[j]).publication.version_uuid) || (exists|i: int|
            0 <= i < inks.len() && !has_identity(
                s,
                (#[trigger] inks[i]).publication.page_uuid,
                PageKind::Handwriting,
            )),
        SnapshotError::PageWithoutIdentity => exists|i: int|
            0 <= i < pages.len() && !has_identity(
                s,
                (#[trigger] pages[i]).uuid,
                pages[i].kind,
            ),
        SnapshotError::JournalTitle => exists|i: int|
            0 <= i < pages.len() && (#[trigger] pages[i]).kind is Journal && pages[i].title is Some,
        SnapshotError::DuplicatePage => exists|i: int, j: int|
            0 <= i < j < pages.len() && (#[trigger] pages[i]).uuid == (#[trigger] pages[j]).uuid,
        SnapshotError::AliasUnknownPage => exists|i: int|
            0 <= i < aliases.len() && !is_identity(s, (#[trigger] aliases[i]).page_uuid),
        SnapshotError::DuplicateAlias => exists|i: int, j: int|
            0 <= i < j < aliases.len() && (#[trigger] aliases[i]).page_uuid == (
            #[trigger] aliases[j]).page_uuid && aliases[i].alias@ == aliases[j].alias@,
        SnapshotError::BlockIsPage => exists|i: int|
            0 <= i < bs.len() && is_identity(s, (#[trigger] bs[i]).uuid),
        SnapshotError::DuplicateBlock => exists|i: int, j: int|
            0 <= i < j < bs.len() && (#[trigger] bs[i]).uuid == (#[trigger] bs[j]).uuid,
        SnapshotError::BlockInHandwriting => exists|i: int|
            0 <= i < bs.len() && has_identity(
                s,
                (#[trigger] bs[i]).page_uuid,
                PageKind::Handwriting,
            ),
        SnapshotError::BlockMissingPage => exists|i: int|
            0 <= i < bs.len() && !is_page(s, (#[trigger] bs[i]).page_uuid),
        SnapshotError::DuplicateTombstone => exists|i: int, j: int|
            0 <= i < j < ts.len() && (#[trigger] ts[i]).uuid == (#[trigger] ts[j]).uuid,
        SnapshotError::TombstoneLive => exists|i: int|
            0 <= i < ts.len() && tombstone_live(s, #[trigger] ts[i]),
        SnapshotError::PageTombstoneWithoutIdentity => exists|i: int|
            0 <= i < ts.len() && (#[trigger] ts[i]).object_kind == ObjectKind::Page
                && !is_identity(s, ts[i].uuid),
        SnapshotError::PageTombstoneRoot => exists|i: int|
            0 <= i < ts.len() && (#[trigger] ts[i]).object_kind == ObjectKind::Page
                && ts[i].root_page_uuid != Some(ts[i].uuid),
        SnapshotError::BlockTombstoneRoot => exists|i: int|
            0 <= i < ts.len() && (#[trigger] ts[i]).object_kind == ObjectKind::Block
                && ts[i].root_page_uuid is None,
        SnapshotError::MissingParent => exists|i: int|
            0 <= i < bs.len() && (#[trigger] bs[i]).parent_uuid is Some && !is_block(
                s,
                bs[i].parent_uuid->0,
            ),
        SnapshotError::ParentOnOtherPage => exists|i: int|
            0 <= i < bs.len() && (#[trigger] bs[i]).parent_uuid is Some && block_elsewhere(
                s,
                bs[i].parent_uuid->0,
                bs[i].page_uuid,
            ),
        SnapshotError::StructureInHandwriting => exists|i: int|
            0 <= i < sts.len() && has_identity(
                s,
                (#[trigger] sts[i]).page_uuid,
                PageKind::Handwriting,
            ),
        SnapshotError::DuplicateStructure => exists|i: int, j: int|
            0 <= i < j < sts.len() && (#[trigger] sts[i]).block_uuid == (
            #[trigger] sts[j]).block_uuid,
        SnapshotError::StructureMissingBlock => exists|i: int|
            0 <= i < sts.len() && !is_block(s, (#[trigger] sts[i]).block_uuid),
        SnapshotError::StructurePageMismatch => exists|i: int, k: int|
            0 <= i < sts.len() && 0 <= k < bs.len() && (#[trigger] bs[k]).uuid == (
            #[trigger] sts[i]).block_uuid && (bs[k].page_uuid != sts[i].page_uuid || !is_page(
                s,
                sts[i].page_uuid,
            )),
        SnapshotError::StructureMismatch => exists|i: int, k: int|
            0 <= i < sts.len() && 0 <= k < bs.len() && (#[trigger] bs[k]).uuid == (
            #[trigger] sts[i]).block_uuid && structure_disagrees(sts[i], bs[k]),
        SnapshotError::RawParentOtherPage => exists|i: int|
            0 <= i < sts.len() && (#[trigger] sts[i]).parent_uuid is Some && block_elsewhere(
                s,
                sts[i].parent_uuid->0,
                sts[i].page_uuid,
            ),
        SnapshotError::RawParentUnknown => exists|i: int|
            0 <= i < sts.len() && (#[trigger] sts[i]).parent_uuid is Some && !is_block(
                s,
                sts[i].parent_uuid->0,
            ) && !tombstoned_as(s, sts[i].parent_uuid->0, ObjectKind::Block),
        SnapshotError::BlockWithoutStructure => exists|k: int|
            0 <= k < bs.len() && !has_structure(s, (#[trigger] bs[k]).uuid),
        SnapshotError::DuplicateAttachment => exists|i: int, j: int|
            0 <= i < j < atts.len() && same_attachment(#[trigger] atts[i], #[trigger] atts[j]),
        SnapshotError::AttachmentOwnerUnknown => exists|i: int|
            0 <= i < atts.len() && !owner_known(s, (#[trigger] atts[i]).owner),
    }
}

/// The first fault among items `0..n`, in order.
pub open spec fn first_fault_in<E>(n: int, fault: spec_fn(int) -> Option<E>) -> Option<E>
    decreases n,
{
    if n <= 0 {
        None
    } else {
        match first_fault_in(n - 1, fault) {
            Some(e) => Some(e),
            None => fault(n - 1),
        }
    }
}

/// The first fault of a prefix is the first fault of every longer prefix.
proof fn lemma_first_fault_extends<E>(a: int, b: int, fault: spec_fn(int) -> Option<E>)
    requires
        0 <= a <= b,
        first_fault_in(a, fault) is Some,
    ensures
        first_fault_in(b, fault) == first_fault_in(a, fault),
    decreases b - a,
{
    if a < b {
        lemma_first_fault_extends(a, b - 1, fault);
    }
}

/// A fault at item `i` after a clean prefix is the first fault of every longer prefix.
proof fn lemma_fault_found<E>(i: int, n: int, fault: spec_fn(int) -> Option<E>, e: E)
    requires
        0 <= i < n,
        first_fault_in(i, fault) is None,
        fault(i) == Some(e),
    ensures
        first_fault_in(n, fault) == Some(e),
{
    assert(first_fault_in(i + 1, fault) == Some(e));
    lemma_first_fault_extends(i + 1, n, fault);
}

/// The rule page identity `i` breaks first, given the identities before it.
pub open spec fn identity_fault(s: SyncSnapshot, journal: Seq<u128>, i: int) -> Option<SnapshotError> {
    let ids = s.page_identities@;
    if journal_uuid_wrong(s, journal, i) {
        Some(SnapshotError::JournalUuid)
    } else if exists|k: int| 0 <= k < i && (#[trigger] ids[k]).uuid == ids[i].uuid {
        Some(SnapshotError::DuplicatePageIdentity)
    } else if exists|k: int| 0 <= k < i && #[trigger] same_journal_date(ids[k], ids[i]) {
        Some(SnapshotError::DuplicateJournalDate)
    } else {
        None
    }
}

/// The rule handwriting version `i` breaks first, given the versions before it.
pub open spec fn ink_fault(s: SyncSnapshot, i: int) -> Option<SnapshotError> {
    let inks = s.ink_versions@;
    if !inks[i].publication.well_formed {
        Some(SnapshotError::MalformedInk)
    } else if (exists|k: int|
        0 <= k < i && (#[trigger] inks[k]).publication.version_uuid
            == inks[i].publication.version_uuid) || !has_identity(
        s,
        inks[i].publication.page_uuid,
        PageKind::Handwriting,
    ) {
        Some(SnapshotError::InvalidInkVersion)
    } else {
        None
    }
}

/// The rule page `i` breaks first, given the pages before it.
pub open spec fn page_fault(s: SyncSnapshot, i: int) -> Option<SnapshotError> {
    let pages = s.pages@;
    if !has_identity(s, pages[i].uuid, pages[i].kind) {
        Some(SnapshotError::PageWithoutIdentity)
    } else if pages[i].kind is Journal && pages[i].title is Some {
        Some(SnapshotError::JournalTitle)
    } else if exists|k: int| 0 <= k < i && (#[trigger] pages[k]).uuid == pages[i].uuid {
        Some(SnapshotError::DuplicatePage)
    } else {
        None
    }
}

/// The rule alias `i` breaks first, given the aliases before it.
pub open spec fn alias_fault(s: SyncSnapshot, i: int) -> Option<SnapshotError> {
    let aliases = s.page_aliases@;
    if !is_identity(s, aliases[i].page_uuid) {
        Some(SnapshotError::AliasUnknownPage)
    } else if exists|k: int|
        0 <= k < i && (#[trigger] aliases[k]).page_uuid == aliases[i].page_uuid
            && aliases[k].alias@ == aliases[i].alias@ {
        Some(SnapshotError::DuplicateAlias)
    } else {
        None
    }
}

/// The rule block `i` breaks first, given the blocks before it.
pub open spec fn block_fault(s: SyncSnapshot, i: int) -> Option<SnapshotError> {
    let bs = s.blocks@;
    if is_identity(s, bs[i].uuid) {
        Some(SnapshotError::BlockIsPage)
    } else if exists|k: int| 0 <= k < i && (#[trigger] bs[k]).uuid == bs[i].uuid {
        Some(SnapshotError::DuplicateBlock)
    } else if has_identity(s, bs[i].page_uuid, PageKind::Handwriting) {
        Some(SnapshotError::BlockInHandwriting)
    } else if !is_page(s, bs[i].page_uuid) {
        Some(SnapshotError::BlockMissingPage)
    } else {
        None
    }
}

/// The rule tombstone `i` breaks first, given the tombstones before it.
pub open spec fn tombstone_fault(s: SyncSnapshot, i: int) -> Option<SnapshotError> {
    let ts = s.tombstones@;
    if exists|k: int| 0 <= k < i && (#[trigger] ts[k]).uuid == ts[i].uuid {
        Some(SnapshotError::DuplicateTombstone)
    } else if tombstone_live(s, ts[i]) {
        Some(SnapshotError::TombstoneLive)
    } else if ts[i].object_kind == ObjectKind::Page && !is_identity(s, ts[i].uuid) {
        Some(SnapshotError::PageTombstoneWithoutIdentity)
    } else if ts[i].object_kind == ObjectKind::Page && ts[i].root_page_uuid != Some(ts[i].uuid) {
        Some(SnapshotError::PageTombstoneRoot)
    } else if ts[i].object_kind == ObjectKind::Block && ts[i].root_page_uuid is None {
        Some(SnapshotError::BlockTombstoneRoot)
    } else {
        None
    }
}

/// The rule the materialized parent of block `i` breaks, if any.
pub open spec fn parent_fault(s: SyncSnapshot, i: int) -> Option<SnapshotError> {
    let b = s.blocks@[i];
    match b.parent_uuid {
        Some(p) => if !is_block(s, p) {
            Some(SnapshotError::MissingParent)
        } else if block_elsewhere(s, p, b.page_uuid) {
            Some(SnapshotError::ParentOnOtherPage)
        } else {
            None
        },
        None => None,
    }
}

/// The rule structure intent `i` breaks first, given the intents before it.
pub open spec fn structure_fault(s: SyncSnapshot, i: int) -> Option<SnapshotError> {
    let sts = s.structures@;
    let st = sts[i];
    if has_identity(s, st.page_uuid, PageKind::Handwriting) {
        Some(SnapshotError::StructureInHandwriting)
    } else if exists|k: int| 0 <= k < i && (#[trigger] sts[k]).block_uuid == st.block_uuid {
        Some(SnapshotError::DuplicateStructure)
    } else if !is_block(s, st.block_uuid) {
        Some(SnapshotError::StructureMissingBlock)
    } else if block_elsewhere(s, st.block_uuid, st.page_uuid) || !is_page(s, st.page_uuid) {
        Some(SnapshotError::StructurePageMismatch)
    } else if exists|k: int|
        0 <= k < s.blocks@.len() && (#[trigger] s.blocks@[k]).uuid == st.block_uuid
            && structure_disagrees(st, s.blocks@[k]) {
        Some(SnapshotError::StructureMismatch)
    } else {
        match st.parent_uuid {
            Some(p) => if is_block(s, p) {
                if block_elsewhere(s, p, st.page_uuid) {
                    Some(SnapshotError::RawParentOtherPage)
                } else {
                    None
                }
            } else if !tombstoned_as(s, p, ObjectKind::Block) {
                Some(SnapshotError::RawParentUnknown)
            } else {
                None
            },
            None => None,
        }
    }
}

/// The rule block `i` breaks when it has no structure intent.
pub open spec fn unstructured_fault(s: SyncSnapshot, i: int) -> Option<SnapshotError> {
    if !has_structure(s, s.blocks@[i].uuid) {
        Some(SnapshotError::BlockWithoutStructure)
    } else {
        None
    }
}

/// The rule attachment `i` breaks first, given the attachments before it.
pub open spec fn attachment_fault(s: SyncSnapshot, i: int) -> Option<SnapshotError> {
    let atts = s.attachments@;
    if exists|k: int| 0 <= k < i && same_attachment(#[trigger] atts[k], atts[i]) {
        Some(SnapshotError::DuplicateAttachment)
    } else if !owner_known(s, atts[i].owner) {
        Some(SnapshotError::AttachmentOwnerUnknown)
    } else {
        None
    }
}

pub open spec fn identity_faults(s: SyncSnapshot, journal: Seq<u128>) -> spec_fn(int) -> Option<
    SnapshotError,
> {
    |i: int| identity_fault(s, journal, i)
}

pub open spec fn ink_faults(s: SyncSnapshot) -> spec_fn(int) -> Option<SnapshotError> {
    |i: int| ink_fault(s, i)
}

pub open spec fn page_faults(s: SyncSnapshot) -> spec_fn(int) -> Option<SnapshotError> {
    |i: int| page_fault(s, i)
}

pub open spec fn alias_faults(s: SyncSnapshot) -> spec_fn(int) -> Option<SnapshotError> {
    |i: int| alias_fault(s, i)
}

pub open spec fn block_faults(s: SyncSnapshot) -> spec_fn(int) -> Option<SnapshotError> {
    |i: int| block_fault(s, i)
}

pub open spec fn tombstone_faults(s: SyncSnapshot) -> spec_fn(int) -> Option<SnapshotError> {
    |i: int| tombstone_fault(s, i)
}

pub open spec fn parent_faults(s: SyncSnapshot) -> spec_fn(int) -> Option<SnapshotError> {
    |i: int| parent_fault(s, i)
}

pub open spec fn structure_faults(s: SyncSnapshot) -> spec_fn(int) -> Option<SnapshotError> {
    |i: int| structure_fault(s, i)
}

pub open spec fn unstructured_faults(s: SyncSnapshot) -> spec_fn(int) -> Option<SnapshotError> {
    |i: int| unstructured_fault(s, i)
}

pub open spec fn attachment_faults(s: SyncSnapshot) -> spec_fn(int) -> Option<SnapshotError> {
    |i: int| attachment_fault(s, i)
}

/// The error a snapshot is refused with: the first rule broken, phase by phase, and within
/// a phase item by item.
pub open spec fn first_fault(s: SyncSnapshot, journal: Seq<u128>) -> Option<SnapshotError> {
    let ids = first_fault_in(s.page_identities@.len() as int, identity_faults(s, journal));
    let inks = first_fault_in(s.ink_versions@.len() as int, ink_faults(s));
    let pages = first_fault_in(s.pages@.len() as int, page_faults(s));
    let aliases = first_fault_in(s.page_aliases@.len() as int, alias_faults(s));
    let blocks = first_fault_in(s.blocks@.len() as int, block_faults(s));
    let tombs = first_fault_in(s.tombstones@.len() as int, tombstone_faults(s));
    let parents = first_fault_in(s.blocks@.len() as int, parent_faults(s));
    let sts = first_fault_in(s.structures@.len() as int, structure_faults(s));
    let unstructured = first_fault_in(s.blocks@.len() as int, unstructured_faults(s));
    let atts = first_fault_in(s.attachments@.len() as int, attachment_faults(s));
    if s.workspace_uuid == 0 {
        Some(SnapshotError::NilWorkspace)
    } else if ids is Some {
        ids
    } else if inks is Some {
        inks
    } else if pages is Some {
        pages
    } else if aliases is Some {
        aliases
    } else if blocks is Some {
        blocks
    } else if tombs is Some {
        tombs
    } else if parents is Some {
        parents
    } else if sts is Some {
        sts
    } else if unstructured is Some {
        unstructured
    } else {
        atts
    }
}

/// The order in which the rules are checked: the rules of a phase are checked only once
/// every earlier phase holds.
pub open spec fn phase(e: SnapshotError) -> int {
    match e {
        SnapshotError::NilWorkspace => 0,
        SnapshotError::JournalUuid => 1,
        SnapshotError::DuplicatePageIdentity => 1,
        SnapshotError::DuplicateJournalDate => 1,
        SnapshotError::MalformedInk => 2,
        SnapshotError::InvalidInkVersion => 2,
        SnapshotError::PageWithoutIdentity => 3,
        SnapshotError::JournalTitle => 3,
        SnapshotError::DuplicatePage => 3,
        SnapshotError::AliasUnknownPage => 4,
        SnapshotError::DuplicateAlias => 4,
        SnapshotError::BlockIsPage => 5,
        SnapshotError::DuplicateBlock => 5,
        SnapshotError::BlockInHandwriting => 5,
        SnapshotError::BlockMissingPage => 5,
        SnapshotError::DuplicateTombstone => 6,
        SnapshotError::TombstoneLive => 6,
        SnapshotError::PageTombstoneWithoutIdentity => 6,
        SnapshotError::PageTombstoneRoot => 6,
        SnapshotError::BlockTombstoneRoot => 6,
        SnapshotError::MissingParent => 7,
        SnapshotError::ParentOnOtherPage => 7,
        SnapshotError::StructureInHandwriting => 8,
        SnapshotError::DuplicateStructure => 8,
        SnapshotError::StructureMissingBlock => 8,
        SnapshotError::StructurePageMismatch => 8,
        SnapshotError::StructureMismatch => 8,
        SnapshotError::RawParentOtherPage => 8,
        SnapshotError::RawParentUnknown => 8,
        SnapshotError::BlockWithoutStructure => 9,
        SnapshotError::DuplicateAttachment => 10,
        SnapshotError::AttachmentOwnerUnknown => 10,
    }
}

/// Every rule checked before phase `k` holds.
pub open spec fn clear_before(s: SyncSnapshot, journal: Seq<u128>, k: int) -> bool {
    forall|f: SnapshotError| phase(f) < k ==> !#[trigger] breaks(s, journal, f)
}

proof fn lemma_clear_next(s: SyncSnapshot, journal: Seq<u128>, k: int)
    requires
        clear_before(s, journal, k),
        forall|f: SnapshotError| phase(f) == k ==> !#[trigger] breaks(s, journal, f),
    ensures
        clear_before(s, journal, k + 1),
{
}

/// A snapshot is consistent when it breaks none of the rules.
pub open spec fn snapshot_consistent(s: SyncSnapshot, journal: Seq<u128>) -> bool {
    forall|e: SnapshotError| !#[trigger] breaks(s, journal, e)
}

/// What a consistent snapshot guarantees, each stated over its own lists: a real
/// workspace; no page identity, page, block or tombstone twice; every page with an identity
/// of its own kind; no journal page with a stored title; every block on a page of the
/// snapshot and no block UUID reserved for a page; every parent a block of the same page.
pub proof fn lemma_consistent_snapshot(s: SyncSnapshot, journal: Seq<u128>)
    requires
        snapshot_consistent(s, journal),
    ensures
        s.workspace_uuid != 0,
        forall|i: int, j: int|
            0 <= i < j < s.page_identities@.len() ==> (#[trigger] s.page_identities@[i]).uuid != (
            #[trigger] s.page_identities@[j]).uuid,
        forall|i: int, j: int|
            0 <= i < j < s.pages@.len() ==> (#[trigger] s.pages@[i]).uuid != (
            #[trigger] s.pages@[j]).uuid,
        forall|i: int, j: int|
            0 <= i < j < s.blocks@.len() ==> (#[trigger] s.blocks@[i]).uuid != (
            #[trigger] s.blocks@[j]).uuid,
        forall|i: int, j: int|
            0 <= i < j < s.tombstones@.len() ==> (#[trigger] s.tombstones@[i]).uuid != (
            #[trigger] s.tombstones@[j]).uuid,
        forall|i: int|
            0 <= i < s.pages@.len() ==> exists|k: int|
                0 <= k < s.page_identities@.len() && (#[trigger] s.page_identities@[k]).uuid == (
                #[trigger] s.pages@[i]).uuid && s.page_identities@[k].kind == s.pages@[i].kind,
        forall|i: int|
            0 <= i < s.pages@.len() && (#[trigger] s.pages@[i]).kind is Journal ==> s.pages@[i].title is None,
        forall|i: int|
            0 <= i < s.blocks@.len() ==> exists|k: int|
                0 <= k < s.pages@.len() && (#[trigger] s.pages@[k]).uuid == (
                #[trigger] s.blocks@[i]).page_uuid,
        forall|i: int, k: int|
            0 <= i < s.blocks@.len() && 0 <= k < s.page_identities@.len() ==> (
            #[trigger] s.blocks@[i]).uuid != (#[trigger] s.page_identities@[k]).uuid,
        forall|i: int, k: int|
            0 <= i < s.blocks@.len() && 0 <= k < s.blocks@.len() && (#[trigger] s.blocks@[i]).parent_uuid
                == Some((#[trigger] s.blocks@[k]).uuid) ==> s.blocks@[k].page_uuid == s.blocks@[i].page_uuid,
{
    assert(!breaks(s, journal, SnapshotError::NilWorkspace));
    assert(!breaks(s, journal, SnapshotError::DuplicatePageIdentity));
    assert(!breaks(s, journal, SnapshotError::DuplicatePage));
    assert(!breaks(s, journal, SnapshotError::DuplicateBlock));
    assert(!breaks(s, journal, SnapshotError::DuplicateTombstone));
    assert(!breaks(s, journal, SnapshotError::PageWithoutIdentity));
    assert(!breaks(s, journal, SnapshotError::JournalTitle));
    assert(!breaks(s, journal, SnapshotError::BlockMissingPage));
    assert(!breaks(s, journal, SnapshotError::BlockIsPage));
    assert(!breaks(s, journal, SnapshotError::ParentOnOtherPage));
    assert forall|i: int| 0 <= i < s.pages@.len() implies exists|k: int|
        0 <= k < s.page_identities@.len() && (#[trigger] s.page_identities@[k]).uuid == (
        #[trigger] s.pages@[i]).uuid && s.page_identities@[k].kind == s.pages@[i].kind by {
        assert(has_identity(s, s.pages@[i].uuid, s.pages@[i].kind));
        let k = choose|k: int|
            0 <= k < s.page_identities@.len() && #[trigger] s.page_identities@[k] == (
            SnapshotPageIdentity { uuid: s.pages@[i].uuid, kind: s.pages@[i].kind });
        assert(s.page_identities@[k].uuid == s.pages@[i].uuid);
    }
    assert forall|i: int| 0 <= i < s.blocks@.len() implies exists|k: int|
        0 <= k < s.pages@.len() && (#[trigger] s.pages@[k]).uuid == (#[trigger] s.blocks@[i]).page_uuid by {
        assert(is_page(s, s.blocks@[i].page_uuid));
    }
    assert forall|i: int, k: int|
        0 <= i < s.blocks@.len() && 0 <= k < s.page_identities@.len() implies (
        #[trigger] s.blocks@[i]).uuid != (#[trigger] s.page_identities@[k]).uuid by {
        if s.blocks@[i].uuid == s.page_identities@[k].uuid {
            assert(is_identity(s, s.blocks@[i].uuid));
        }
    }
    assert forall|i: int, k: int|
        0 <= i < s.blocks@.len() && 0 <= k < s.blocks@.len() && (#[trigger] s.blocks@[i]).parent_uuid
            == Some((#[trigger] s.blocks@[k]).uuid) implies s.blocks@[k].page_uuid == s.blocks@[i].page_uuid by {
        if s.blocks@[k].page_uuid != s.blocks@[i].page_uuid {
            assert(block_elsewhere(s, s.blocks@[i].parent_uuid->0, s.blocks@[i].page_uuid));
        }
    }
}

/// A number that tells journal dates apart.
pub open spec fn date_key(d: JournalDate) -> int {
    (d.year + 0x8000_0000) * 0x1_0000 + d.month * 0x100 + d.day
}

proof fn lemma_date_key_injective(a: JournalDate, b: JournalDate)
    requires
        date_key(a) == date_key(b),
    ensures
        a == b,
{
}

fn journal_date_key(d: JournalDate) -> (k: u64)
    ensures
        k == date_key(d),
{
    let y: u64 = (d.year as i64 + 0x8000_0000i64) as u64;
    y * 0x1_0000 + (d.month as u64) * 0x100 + d.day as u64
}

/// Where every page identity is known by its UUID.
pub open spec fn identity_index(s: SyncSnapshot, m: Map<u128, PageKind>) -> bool {
    &&& forall|u: u128| #[trigger] m.contains_key(u) <==> is_identity(s, u)
    &&& forall|i: int|
        0 <= i < s.page_identities@.len() ==> m[(#[trigger] s.page_identities@[i]).uuid]
            == s.page_identities@[i].kind
}

fn check_identities(s: &SyncSnapshot, journal: &[u128]) -> (r: Result<
    HashMap<u128, PageKind>,
    SnapshotError,
>)
    requires
        journal@.len() == s.page_identities@.len(),
    ensures
        match r {
            Ok(m) => {
                &&& !breaks(*s, journal@, SnapshotError::JournalUuid)
                &&& !breaks(*s, journal@, SnapshotError::DuplicatePageIdentity)
                &&& !breaks(*s, journal@, SnapshotError::DuplicateJournalDate)
                &&& identity_index(*s, m@)
                &&& first_fault_in(s.page_identities@.len() as int, identity_faults(*s, journal@))
                    is None
            },
            Err(e) => breaks(*s, journal@, e) && phase(e) == 1 && first_fault_in(
                s.page_identities@.len() as int,
                identity_faults(*s, journal@),
            ) == Some(e),
        },
{
    let ids = &s.page_identities;
    let mut m: HashMap<u128, PageKind> = HashMap::new();
    let mut dates: HashMap<u64, usize> = HashMap::new();
    let mut i: usize = 0;
    while i < ids.len()
        invariant
            ids@ == s.page_identities@,
            journal@.len() == ids@.len(),
            i <= ids@.len(),
            first_fault_in(i as int, identity_faults(*s, journal@)) is None,
            forall|k: int| 0 <= k < i ==> !journal_uuid_wrong(*s, journal@, k),
            forall|a: int, b: int| 0 <= a < b < i ==> ids@[a].uuid != ids@[b].uuid,
            forall|a: int, b: int| 0 <= a < b < i ==> !same_journal_date(ids@[a], ids@[b]),
            forall|u: u128|
                #[trigger] m@.contains_key(u) <==> exists|k: int|
                    0 <= k < i && (#[trigger] ids@[k]).uuid == u,
            forall|k: int| 0 <= k < i ==> m@[(#[trigger] ids@[k]).uuid] == ids@[k].kind,
            forall|d: u64|
                #[trigger] dates@.contains_key(d) ==> {
                    &&& dates@[d] < i
                    &&& ids@[dates@[d] as int].kind is Journal
                    &&& date_key(ids@[dates@[d] as int].kind->date) == d
                },
            forall|k: int|
                0 <= k < i && (#[trigger] ids@[k]).kind is Journal ==> dates@.contains_key(
                    date_key(ids@[k].kind->date) as u64,
                ),
        decreases ids@.len() - i,
    {
        let id = ids[i];
        let ghost faults = identity_faults(*s, journal@);
        if let PageKind::Journal { .. } = id.kind {
            if id.uuid != journal[i] {
                assert(journal_uuid_wrong(*s, journal@, i as int));
                proof {
                    lemma_fault_found(i as int, ids@.len() as int, faults, SnapshotError::JournalUuid);
                }
                return Err(SnapshotError::JournalUuid);
            }
        }
        assert(!journal_uuid_wrong(*s, journal@, i as int));
        if m.contains_key(&id.uuid) {
            let ghost k = choose|k: int| 0 <= k < i && (#[trigger] ids@[k]).uuid == id.uuid;
            assert(ids@[k].uuid == ids@[i as int].uuid);
            assert(s.page_identities@[k].uuid == s.page_identities@[i as int].uuid);
            proof {
                lemma_fault_found(
                    i as int,
                    ids@.len() as int,
                    faults,
                    SnapshotError::DuplicatePageIdentity,
                );
            }
            return Err(SnapshotError::DuplicatePageIdentity);
        }
        assert(!exists|k: int|
            0 <= k < i && (#[trigger] s.page_identities@[k]).uuid == s.page_identities@[i as int].uuid);
        m.insert(id.uuid, id.kind);
        if let PageKind::Journal { date } = id.kind {
            let key = journal_date_key(date);
            if dates.contains_key(&key) {
                let ghost k = dates@[key] as int;
                proof {
                    lemma_date_key_injective(ids@[k].kind->date, date);
                }
                assert(same_journal_date(ids@[k], ids@[i as int]));
                assert(same_journal_date(s.page_identities@[k], s.page_identities@[i as int]));
                proof {
                    lemma_fault_found(
                        i as int,
                        ids@.len() as int,
                        faults,
                        SnapshotError::DuplicateJournalDate,
                    );
                }
                return Err(SnapshotError::DuplicateJournalDate);
            }
            assert forall|a: int| 0 <= a < i implies !same_journal_date(
                #[trigger] ids@[a],
                ids@[i as int],
            ) by {
                if same_journal_date(ids@[a], ids@[i as int]) {
                    assert(dates@.contains_key(date_key(ids@[a].kind->date) as u64));
                }
            }
            dates.insert(key, i);
        }
        assert(forall|a: int|
            0 <= a < i ==> !#[trigger] same_journal_date(s.page_identities@[a], s.page_identities@[i as int]));
        assert(identity_fault(*s, journal@, i as int) is None);
        assert(first_fault_in(i + 1, faults) is None);
        i = i + 1;
    }
    proof {
        assert forall|u: u128| #[trigger] m@.contains_key(u) <==> is_identity(*s, u) by {
            if m@.contains_key(u) {
                let k = choose|k: int| 0 <= k < i && (#[trigger] ids@[k]).uuid == u;
                assert(s.page_identities@[k].uuid == u);
            }
            if is_identity(*s, u) {
                let k = choose|k: int|
                    0 <= k < s.page_identities@.len() && (#[trigger] s.page_identities@[k]).uuid
                        == u;
                assert(ids@[k].uuid == u);
            }
        }
    }
    Ok(m)
}

fn identity_kind(ids: &HashMap<u128, PageKind>, u: u128) -> (r: Option<PageKind>)
    ensures
        r == (if ids@.contains_key(u) {
            Some(ids@[u])
        } else {
            None::<PageKind>
        }),
{
    match ids.get(&u) {
        Some(k) => Some(*k),
        None => None,
    }
}

proof fn lemma_identity_kind(s: SyncSnapshot, ids: Map<u128, PageKind>, u: u128, k: PageKind)
    requires
        identity_index(s, ids),
    ensures
        has_identity(s, u, k) <==> (ids.contains_key(u) && ids[u] == k),
{
    if has_identity(s, u, k) {
        let i = choose|i: int|
            0 <= i < s.page_identities@.len() && #[trigger] s.page_identities@[i] == (
            SnapshotPageIdentity { uuid: u, kind: k });
        assert(is_identity(s, u));
    }
    if ids.contains_key(u) && ids[u] == k {
        let i = choose|i: int|
            0 <= i < s.page_identities@.len() && (#[trigger] s.page_identities@[i]).uuid == u;
        assert(s.page_identities@[i] == (SnapshotPageIdentity { uuid: u, kind: k }));
    }
}

fn check_ink(s: &SyncSnapshot, journal: Ghost<Seq<u128>>, ids: &HashMap<u128, PageKind>) -> (r:
    Result<(), SnapshotError>)
    requires
        identity_index(*s, ids@),
    ensures
        match r {
            Ok(_) => {
                &&& !breaks(*s, journal@, SnapshotError::MalformedInk)
                &&& !breaks(*s, journal@, SnapshotError::InvalidInkVersion)
                &&& first_fault_in(s.ink_versions@.len() as int, ink_faults(*s)) is None
            },
            Err(e) => breaks(*s, journal@, e) && phase(e) == 2 && first_fault_in(
                s.ink_versions@.len() as int,
                ink_faults(*s),
            ) == Some(e),
        },
{
    let inks = &s.ink_versions;
    let mut versions: HashSet<u128> = HashSet::new();
    let mut i: usize = 0;
    while i < inks.len()
        invariant
            first_fault_in(i as int, ink_faults(*s)) is None,
            inks@ == s.ink_versions@,
            identity_index(*s, ids@),
            i <= inks@.len(),
            forall|k: int| 0 <= k < i ==> (#[trigger] inks@[k]).publication.well_formed,
            forall|a: int, b: int|
                0 <= a < b < i ==> (#[trigger] inks@[a]).publication.version_uuid != (
                #[trigger] inks@[b]).publication.version_uuid,
            forall|k: int|
                0 <= k < i ==> has_identity(
                    *s,
                    (#[trigger] inks@[k]).publication.page_uuid,
                    PageKind::Handwriting,
                ),
            forall|u: u128|
                #[trigger] versions@.contains(u) <==> exists|k: int|
                    0 <= k < i && (#[trigger] inks@[k]).publication.version_uuid == u,
        decreases inks@.len() - i,
    {
        let p = &inks[i].publication;
        if !p.well_formed {
            assert(!inks@[i as int].publication.well_formed);
            proof {
                lemma_fault_found(i as int, s.ink_versions@.len() as int, ink_faults(*s), SnapshotError::MalformedInk);
            }
            return Err(SnapshotError::MalformedInk);
        }
        proof {
            lemma_identity_kind(*s, ids@, p.page_uuid, PageKind::Handwriting);
        }
        if versions.contains(&p.version_uuid) {
            let ghost k = choose|k: int|
                0 <= k < i && (#[trigger] inks@[k]).publication.version_uuid == p.version_uuid;
            assert(inks@[k].publication.version_uuid == inks@[i as int].publication.version_uuid);
            proof {
                lemma_fault_found(i as int, s.ink_versions@.len() as int, ink_faults(*s), SnapshotError::InvalidInkVersion);
            }
            return Err(SnapshotError::InvalidInkVersion);
        }
        if identity_kind(ids, p.page_uuid) != Some(PageKind::Handwriting) {
            assert(!has_identity(*s, inks@[i as int].publication.page_uuid, PageKind::Handwriting));
            proof {
                lemma_fault_found(i as int, s.ink_versions@.len() as int, ink_faults(*s), SnapshotError::InvalidInkVersion);
            }
            return Err(SnapshotError::InvalidInkVersion);
        }
        versions.insert(p.version_uuid);
        assert(ink_fault(*s, i as int) is None);
        assert(first_fault_in(i + 1, ink_faults(*s)) is None);
        i = i + 1;
    }
    Ok(())
}

fn check_pages(s: &SyncSnapshot, journal: Ghost<Seq<u128>>, ids: &HashMap<u128, PageKind>) -> (r:
    Result<HashSet<u128>, SnapshotError>)
    requires
        identity_index(*s, ids@),
    ensures
        match r {
            Ok(p) => {
                &&& !breaks(*s, journal@, SnapshotError::PageWithoutIdentity)
                &&& !breaks(*s, journal@, SnapshotError::JournalTitle)
                &&& !breaks(*s, journal@, SnapshotError::DuplicatePage)
                &&& forall|u: u128| #[trigger] p@.contains(u) <==> is_page(*s, u)
                &&& first_fault_in(s.pages@.len() as int, page_faults(*s)) is None
            },
            Err(e) => breaks(*s, journal@, e) && phase(e) == 3 && first_fault_in(
                s.pages@.len() as int,
                page_faults(*s),
            ) == Some(e),
        },
{
    let pages = &s.pages;
    let mut seen: HashSet<u128> = HashSet::new();
    let mut i: usize = 0;
    while i < pages.len()
        invariant
            first_fault_in(i as int, page_faults(*s)) is None,
            pages@ == s.pages@,
            identity_index(*s, ids@),
            i <= pages@.len(),
            forall|k: int|
                0 <= k < i ==> has_identity(*s, (#[trigger] pages@[k]).uuid, pages@[k].kind),
            forall|k: int|
                0 <= k < i ==> !((#[trigger] pages@[k]).kind is Journal && pages@[k].title is Some),
            forall|a: int, b: int|
                0 <= a < b < i ==> (#[trigger] pages@[a]).uuid != (#[trigger] pages@[b]).uuid,
            forall|u: u128|
                #[trigger] seen@.contains(u) <==> exists|k: int|
                    0 <= k < i && (#[trigger] pages@[k]).uuid == u,
        decreases pages@.len() - i,
    {
        let page = &pages[i];
        proof {
            lemma_identity_kind(*s, ids@, page.uuid, page.kind);
        }
        if identity_kind(ids, page.uuid) != Some(page.kind) {
            assert(!has_identity(*s, pages@[i as int].uuid, pages@[i as int].kind));
            proof {
                lemma_fault_found(i as int, s.pages@.len() as int, page_faults(*s), SnapshotError::PageWithoutIdentity);
            }
            return Err(SnapshotError::PageWithoutIdentity);
        }
        if page.kind.is_journal() && page.title.is_some() {
            assert(pages@[i as int].kind is Journal && pages@[i as int].title is Some);
            proof {
                lemma_fault_found(i as int, s.pages@.len() as int, page_faults(*s), SnapshotError::JournalTitle);
            }
            return Err(SnapshotError::JournalTitle);
        }
        if seen.contains(&page.uuid) {
            let ghost k = choose|k: int| 0 <= k < i && (#[trigger] pages@[k]).uuid == page.uuid;
            assert(pages@[k].uuid == pages@[i as int].uuid);
            proof {
                lemma_fault_found(i as int, s.pages@.len() as int, page_faults(*s), SnapshotError::DuplicatePage);
            }
            return Err(SnapshotError::DuplicatePage);
        }
        seen.insert(page.uuid);
        assert(page_fault(*s, i as int) is None);
        assert(first_fault_in(i + 1, page_faults(*s)) is None);
        i = i + 1;
    }
    proof {
        assert forall|u: u128| #[trigger] seen@.contains(u) <==> is_page(*s, u) by {
            if is_page(*s, u) {
                let k = choose|k: int| 0 <= k < s.pages@.len() && (#[trigger] s.pages@[k]).uuid == u;
                assert(pages@[k].uuid == u);
            }
        }
    }
    Ok(seen)
}

fn check_aliases(s: &SyncSnapshot, journal: Ghost<Seq<u128>>, ids: &HashMap<u128, PageKind>) -> (r:
    Result<(), SnapshotError>)
    requires
        identity_index(*s, ids@),
    ensures
        match r {
            Ok(_) => {
                &&& !breaks(*s, journal@, SnapshotError::AliasUnknownPage)
                &&& !breaks(*s, journal@, SnapshotError::DuplicateAlias)
                &&& first_fault_in(s.page_aliases@.len() as int, alias_faults(*s)) is None
            },
            Err(e) => breaks(*s, journal@, e) && phase(e) == 4 && first_fault_in(
                s.page_aliases@.len() as int,
                alias_faults(*s),
            ) == Some(e),
        },
{
    let aliases = &s.page_aliases;
    let mut i: usize = 0;
    while i < aliases.len()
        invariant
            first_fault_in(i as int, alias_faults(*s)) is None,
            aliases@ == s.page_aliases@,
            identity_index(*s, ids@),
            i <= aliases@.len(),
            forall|k: int| 0 <= k < i ==> is_identity(*s, (#[trigger] aliases@[k]).page_uuid),
            forall|a: int, b: int|
                0 <= a < b < i ==> !((#[trigger] aliases@[a]).page_uuid == (
                #[trigger] aliases@[b]).page_uuid && aliases@[a].alias@ == aliases@[b].alias@),
        decreases aliases@.len() - i,
    {
        let alias = &aliases[i];
        if !ids.contains_key(&alias.page_uuid) {
            assert(!is_identity(*s, aliases@[i as int].page_uuid));
            proof {
                lemma_fault_found(i as int, s.page_aliases@.len() as int, alias_faults(*s), SnapshotError::AliasUnknownPage);
            }
            return Err(SnapshotError::AliasUnknownPage);
        }
        let mut j: usize = 0;
        while j < i
            invariant
                aliases@ == s.page_aliases@,
                i < aliases@.len(),
                j <= i,
                alias == aliases@[i as int],
                first_fault_in(i as int, alias_faults(*s)) is None,
                is_identity(*s, aliases@[i as int].page_uuid),
                forall|a: int|
                    0 <= a < j ==> !((#[trigger] aliases@[a]).page_uuid == alias.page_uuid
                        && aliases@[a].alias@ == alias.alias@),
            decreases i - j,
        {
            if aliases[j].page_uuid == alias.page_uuid && aliases[j].alias == alias.alias {
                assert(aliases@[j as int].page_uuid == aliases@[i as int].page_uuid
                    && aliases@[j as int].alias@ == aliases@[i as int].alias@);
                proof {
                    lemma_fault_found(i as int, s.page_aliases@.len() as int, alias_faults(*s), SnapshotError::DuplicateAlias);
                }
                return Err(SnapshotError::DuplicateAlias);
            }
            j = j + 1;
        }
        assert(alias_fault(*s, i as int) is None);
        assert(first_fault_in(i + 1, alias_faults(*s)) is None);
        i = i + 1;
    }
    Ok(())
}

/// Where every block is known by its UUID, as its position among the snapshot's blocks.
pub open spec fn block_index(s: SyncSnapshot, m: Map<u128, usize>) -> bool {
    &&& forall|u: u128| #[trigger] m.contains_key(u) <==> is_block(s, u)
    &&& forall|i: int|
        0 <= i < s.blocks@.len() ==> m[(#[trigger] s.blocks@[i]).uuid] == i
    &&& forall|u: u128|
        #[trigger] m.contains_key(u) ==> m[u] < s.blocks@.len() && s.blocks@[m[u] as int].uuid == u
}

fn check_blocks(
    s: &SyncSnapshot,
    journal: Ghost<Seq<u128>>,
    ids: &HashMap<u128, PageKind>,
    pages: &HashSet<u128>,
) -> (r: Result<HashMap<u128, usize>, SnapshotError>)
    requires
        identity_index(*s, ids@),
        forall|u: u128| #[trigger] pages@.contains(u) <==> is_page(*s, u),
    ensures
        match r {
            Ok(m) => {
                &&& !breaks(*s, journal@, SnapshotError::BlockIsPage)
                &&& !breaks(*s, journal@, SnapshotError::DuplicateBlock)
                &&& !breaks(*s, journal@, SnapshotError::BlockInHandwriting)
                &&& !breaks(*s, journal@, SnapshotError::BlockMissingPage)
                &&& block_index(*s, m@)
                &&& first_fault_in(s.blocks@.len() as int, block_faults(*s)) is None
            },
            Err(e) => breaks(*s, journal@, e) && phase(e) == 5 && first_fault_in(
                s.blocks@.len() as int,
                block_faults(*s),
            ) == Some(e),
        },
{
    let bs = &s.blocks;
    let mut m: HashMap<u128, usize> = HashMap::new();
    let mut i: usize = 0;
    while i < bs.len()
        invariant
            first_fault_in(i as int, block_faults(*s)) is None,
            bs@ == s.blocks@,
            identity_index(*s, ids@),
            forall|u: u128| #[trigger] pages@.contains(u) <==> is_page(*s, u),
            i <= bs@.len(),
            forall|k: int| 0 <= k < i ==> !is_identity(*s, (#[trigger] bs@[k]).uuid),
            forall|a: int, b: int|
                0 <= a < b < i ==> (#[trigger] bs@[a]).uuid != (#[trigger] bs@[b]).uuid,
            forall|k: int|
                0 <= k < i ==> !has_identity(
                    *s,
                    (#[trigger] bs@[k]).page_uuid,
                    PageKind::Handwriting,
                ),
            forall|k: int| 0 <= k < i ==> is_page(*s, (#[trigger] bs@[k]).page_uuid),
            forall|u: u128|
                #[trigger] m@.contains_key(u) ==> m@[u] < i && bs@[m@[u] as int].uuid == u,
            forall|k: int| 0 <= k < i ==> m@.contains_key((#[trigger] bs@[k]).uuid) && m@[bs@[k].uuid] == k,
        decreases bs@.len() - i,
    {
        let b = &bs[i];
        if ids.contains_key(&b.uuid) {
            assert(is_identity(*s, bs@[i as int].uuid));
            proof {
                lemma_fault_found(i as int, s.blocks@.len() as int, block_faults(*s), SnapshotError::BlockIsPage);
            }
            return Err(SnapshotError::BlockIsPage);
        }
        if m.contains_key(&b.uuid) {
            let ghost k = m@[b.uuid] as int;
            assert(bs@[k].uuid == bs@[i as int].uuid);
            proof {
                lemma_fault_found(i as int, s.blocks@.len() as int, block_faults(*s), SnapshotError::DuplicateBlock);
            }
            return Err(SnapshotError::DuplicateBlock);
        }
        proof {
            lemma_identity_kind(*s, ids@, b.page_uuid, PageKind::Handwriting);
        }
        if identity_kind(ids, b.page_uuid) == Some(PageKind::Handwriting) {
            assert(has_identity(*s, bs@[i as int].page_uuid, PageKind::Handwriting));
            proof {
                lemma_fault_found(i as int, s.blocks@.len() as int, block_faults(*s), SnapshotError::BlockInHandwriting);
            }
            return Err(SnapshotError::BlockInHandwriting);
        }
        if !pages.contains(&b.page_uuid) {
            assert(!is_page(*s, bs@[i as int].page_uuid));
            proof {
                lemma_fault_found(i as int, s.blocks@.len() as int, block_faults(*s), SnapshotError::BlockMissingPage);
            }
            return Err(SnapshotError::BlockMissingPage);
        }
        m.insert(b.uuid, i);
        assert(block_fault(*s, i as int) is None);
        assert(first_fault_in(i + 1, block_faults(*s)) is None);
        i = i + 1;
    }
    proof {
        assert forall|u: u128| #[trigger] m@.contains_key(u) <==> is_block(*s, u) by {
            if m@.contains_key(u) {
                assert(s.blocks@[m@[u] as int].uuid == u);
            }
            if is_block(*s, u) {
                let k = choose|k: int| 0 <= k < s.blocks@.len() && (#[trigger] s.blocks@[k]).uuid == u;
                assert(bs@[k].uuid == u);
            }
        }
    }
    Ok(m)
}

/// Where every tombstone is known by its UUID, as its position among the snapshot's
/// tombstones.
pub open spec fn tombstone_index(s: SyncSnapshot, m: Map<u128, usize>) -> bool {
    &&& forall|u: u128|
        #[trigger] m.contains_key(u) <==> exists|i: int|
            0 <= i < s.tombstones@.len() && (#[trigger] s.tombstones@[i]).uuid == u
    &&& forall|i: int|
        0 <= i < s.tombstones@.len() ==> m[(#[trigger] s.tombstones@[i]).uuid] == i
    &&& forall|u: u128|
        #[trigger] m.contains_key(u) ==> m[u] < s.tombstones@.len() && s.tombstones@[m[u] as int].uuid
            == u
}

fn check_tombstones(
    s: &SyncSnapshot,
    journal: Ghost<Seq<u128>>,
    ids: &HashMap<u128, PageKind>,
    pages: &HashSet<u128>,
    blocks: &HashMap<u128, usize>,
) -> (r: Result<HashMap<u128, usize>, SnapshotError>)
    requires
        identity_index(*s, ids@),
        forall|u: u128| #[trigger] pages@.contains(u) <==> is_page(*s, u),
        block_index(*s, blocks@),
    ensures
        match r {
            Ok(m) => {
                &&& !breaks(*s, journal@, SnapshotError::DuplicateTombstone)
                &&& !breaks(*s, journal@, SnapshotError::TombstoneLive)
                &&& !breaks(*s, journal@, SnapshotError::PageTombstoneWithoutIdentity)
                &&& !breaks(*s, journal@, SnapshotError::PageTombstoneRoot)
                &&& !breaks(*s, journal@, SnapshotError::BlockTombstoneRoot)
                &&& tombstone_index(*s, m@)
                &&& first_fault_in(s.tombstones@.len() as int, tombstone_faults(*s)) is None
            },
            Err(e) => breaks(*s, journal@, e) && phase(e) == 6 && first_fault_in(
                s.tombstones@.len() as int,
                tombstone_faults(*s),
            ) == Some(e),
        },
{
    let ts = &s.tombstones;
    let mut m: HashMap<u128, usize> = HashMap::new();
    let mut i: usize = 0;
    while i < ts.len()
        invariant
            first_fault_in(i as int, tombstone_faults(*s)) is None,
            ts@ == s.tombstones@,
            identity_index(*s, ids@),
            forall|u: u128| #[trigger] pages@.contains(u) <==> is_page(*s, u),
            block_index(*s, blocks@),
            i <= ts@.len(),
            forall|a: int, b: int|
                0 <= a < b < i ==> (#[trigger] ts@[a]).uuid != (#[trigger] ts@[b]).uuid,
            forall|k: int| 0 <= k < i ==> !tombstone_live(*s, #[trigger] ts@[k]),
            forall|k: int|
                0 <= k < i ==> !((#[trigger] ts@[k]).object_kind == ObjectKind::Page && !is_identity(
                    *s,
                    ts@[k].uuid,
                )),
            forall|k: int|
                0 <= k < i ==> !((#[trigger] ts@[k]).object_kind == ObjectKind::Page
                    && ts@[k].root_page_uuid != Some(ts@[k].uuid)),
            forall|k: int|
                0 <= k < i ==> !((#[trigger] ts@[k]).object_kind == ObjectKind::Block
                    && ts@[k].root_page_uuid is None),
            forall|u: u128|
                #[trigger] m@.contains_key(u) ==> m@[u] < i && ts@[m@[u] as int].uuid == u,
            forall|k: int|
                0 <= k < i ==> m@.contains_key((#[trigger] ts@[k]).uuid) && m@[ts@[k].uuid] == k,
        decreases ts@.len() - i,
    {
        let t = &ts[i];
        if m.contains_key(&t.uuid) {
            let ghost k = m@[t.uuid] as int;
            assert(ts@[k].uuid == ts@[i as int].uuid);
            proof {
                lemma_fault_found(i as int, s.tombstones@.len() as int, tombstone_faults(*s), SnapshotError::DuplicateTombstone);
            }
            return Err(SnapshotError::DuplicateTombstone);
        }
        let live = match t.object_kind {
            ObjectKind::Page => pages.contains(&t.uuid) || blocks.contains_key(&t.uuid),
            ObjectKind::Block => blocks.contains_key(&t.uuid) || ids.contains_key(&t.uuid),
        };
        if live {
            assert(tombstone_live(*s, ts@[i as int]));
            proof {
                lemma_fault_found(i as int, s.tombstones@.len() as int, tombstone_faults(*s), SnapshotError::TombstoneLive);
            }
            return Err(SnapshotError::TombstoneLive);
        }
        match t.object_kind {
            ObjectKind::Page => {
                if !ids.contains_key(&t.uuid) {
                    assert(ts@[i as int].object_kind == ObjectKind::Page);
                    proof {
                        lemma_fault_found(i as int, s.tombstones@.len() as int, tombstone_faults(*s), SnapshotError::PageTombstoneWithoutIdentity);
                    }
                    return Err(SnapshotError::PageTombstoneWithoutIdentity);
                }
                if t.root_page_uuid != Some(t.uuid) {
                    assert(ts@[i as int].object_kind == ObjectKind::Page);
                    proof {
                        lemma_fault_found(i as int, s.tombstones@.len() as int, tombstone_faults(*s), SnapshotError::PageTombstoneRoot);
                    }
                    return Err(SnapshotError::PageTombstoneRoot);
                }
            },
            ObjectKind::Block => {
                if t.root_page_uuid.is_none() {
                    assert(ts@[i as int].object_kind == ObjectKind::Block);
                    proof {
                        lemma_fault_found(i as int, s.tombstones@.len() as int, tombstone_faults(*s), SnapshotError::BlockTombstoneRoot);
                    }
                    return Err(SnapshotError::BlockTombstoneRoot);
                }
            },
        }
        m.insert(t.uuid, i);
        assert(tombstone_fault(*s, i as int) is None);
        assert(first_fault_in(i + 1, tombstone_faults(*s)) is None);
        i = i + 1;
    }
    proof {
        assert forall|u: u128|
            #[trigger] m@.contains_key(u) <==> exists|k: int|
                0 <= k < s.tombstones@.len() && (#[trigger] s.tombstones@[k]).uuid == u by {
            if m@.contains_key(u) {
                assert(s.tombstones@[m@[u] as int].uuid == u);
            }
        }
    }
    Ok(m)
}

fn tombstone_kind(s: &SyncSnapshot, tombs: &HashMap<u128, usize>, u: u128) -> (r: Option<
    ObjectKind,
>)
    requires
        tombstone_index(*s, tombs@),
    ensures
        forall|k: ObjectKind| (r == Some(k)) <==> #[trigger] tombstoned_as(*s, u, k),
{
    match tombs.get(&u) {
        Some(idx) => {
            let kind = s.tombstones[*idx].object_kind;
            proof {
                assert forall|k: ObjectKind| (Some(kind) == Some(k)) <==> #[trigger] tombstoned_as(
                    *s,
                    u,
                    k,
                ) by {
                    if tombstoned_as(*s, u, k) {
                        let i = choose|i: int|
                            0 <= i < s.tombstones@.len() && (#[trigger] s.tombstones@[i]).uuid == u
                                && s.tombstones@[i].object_kind == k;
                        assert(tombs@[s.tombstones@[i].uuid] == i);
                    }
                    if k == kind {
                        assert(s.tombstones@[*idx as int].uuid == u);
                    }
                }
            }
            Some(kind)
        },
        None => {
            proof {
                assert forall|k: ObjectKind| !#[trigger] tombstoned_as(*s, u, k) by {
                    if tombstoned_as(*s, u, k) {
                        let i = choose|i: int|
                            0 <= i < s.tombstones@.len() && (#[trigger] s.tombstones@[i]).uuid == u
                                && s.tombstones@[i].object_kind == k;
                        assert(tombs@.contains_key(s.tombstones@[i].uuid));
                    }
                }
            }
            None
        },
    }
}

fn check_parents(s: &SyncSnapshot, journal: Ghost<Seq<u128>>, blocks: &HashMap<u128, usize>) -> (r:
    Result<(), SnapshotError>)
    requires
        block_index(*s, blocks@),
    ensures
        match r {
            Ok(_) => {
                &&& !breaks(*s, journal@, SnapshotError::MissingParent)
                &&& !breaks(*s, journal@, SnapshotError::ParentOnOtherPage)
                &&& first_fault_in(s.blocks@.len() as int, parent_faults(*s)) is None
            },
            Err(e) => breaks(*s, journal@, e) && phase(e) == 7 && first_fault_in(
                s.blocks@.len() as int,
                parent_faults(*s),
            ) == Some(e),
        },
{
    let bs = &s.blocks;
    let mut i: usize = 0;
    while i < bs.len()
        invariant
            first_fault_in(i as int, parent_faults(*s)) is None,
            bs@ == s.blocks@,
            block_index(*s, blocks@),
            i <= bs@.len(),
            forall|k: int|
                0 <= k < i ==> !((#[trigger] bs@[k]).parent_uuid is Some && !is_block(
                    *s,
                    bs@[k].parent_uuid->0,
                )),
            forall|k: int|
                0 <= k < i ==> !((#[trigger] bs@[k]).parent_uuid is Some && block_elsewhere(
                    *s,
                    bs@[k].parent_uuid->0,
                    bs@[k].page_uuid,
                )),
        decreases bs@.len() - i,
    {
        let b = &bs[i];
        if let Some(p) = b.parent_uuid {
            match blocks.get(&p) {
                None => {
                    assert(!is_block(*s, bs@[i as int].parent_uuid->0));
                    proof {
                        lemma_fault_found(i as int, s.blocks@.len() as int, parent_faults(*s), SnapshotError::MissingParent);
                    }
                    return Err(SnapshotError::MissingParent);
                },
                Some(idx) => {
                    if bs[*idx].page_uuid != b.page_uuid {
                        assert(bs@[*idx as int].uuid == p);
                        assert(block_elsewhere(*s, p, bs@[i as int].page_uuid));
                        proof {
                            lemma_fault_found(i as int, s.blocks@.len() as int, parent_faults(*s), SnapshotError::ParentOnOtherPage);
                        }
                        return Err(SnapshotError::ParentOnOtherPage);
                    }
                    proof {
                        assert forall|k: int|
                            0 <= k < s.blocks@.len() && (#[trigger] s.blocks@[k]).uuid == p implies s.blocks@[k].page_uuid
                            == b.page_uuid by {
                            assert(blocks@[s.blocks@[k].uuid] == k);
                        }
                    }
                },
            }
        }
        assert(parent_fault(*s, i as int) is None);
        assert(first_fault_in(i + 1, parent_faults(*s)) is None);
        i = i + 1;
    }
    Ok(())
}

fn check_structures(
    s: &SyncSnapshot,
    journal: Ghost<Seq<u128>>,
    ids: &HashMap<u128, PageKind>,
    pages: &HashSet<u128>,
    blocks: &HashMap<u128, usize>,
    tombs: &HashMap<u128, usize>,
) -> (r: Result<HashSet<u128>, SnapshotError>)
    requires
        identity_index(*s, ids@),
        forall|u: u128| #[trigger] pages@.contains(u) <==> is_page(*s, u),
        block_index(*s, blocks@),
        tombstone_index(*s, tombs@),
    ensures
        match r {
            Ok(set) => {
                &&& !breaks(*s, journal@, SnapshotError::StructureInHandwriting)
                &&& !breaks(*s, journal@, SnapshotError::DuplicateStructure)
                &&& !breaks(*s, journal@, SnapshotError::StructureMissingBlock)
                &&& !breaks(*s, journal@, SnapshotError::StructurePageMismatch)
                &&& !breaks(*s, journal@, SnapshotError::StructureMismatch)
                &&& !breaks(*s, journal@, SnapshotError::RawParentOtherPage)
                &&& !breaks(*s, journal@, SnapshotError::RawParentUnknown)
                &&& forall|u: u128| #[trigger] set@.contains(u) <==> has_structure(*s, u)
                &&& first_fault_in(s.structures@.len() as int, structure_faults(*s)) is None
            },
            Err(e) => breaks(*s, journal@, e) && phase(e) == 8 && first_fault_in(
                s.structures@.len() as int,
                structure_faults(*s),
            ) == Some(e),
        },
{
    let sts = &s.structures;
    let bs = &s.blocks;
    let mut seen: HashSet<u128> = HashSet::new();
    let mut i: usize = 0;
    while i < sts.len()
        invariant
            first_fault_in(i as int, structure_faults(*s)) is None,
            sts@ == s.structures@,
            bs@ == s.blocks@,
            identity_index(*s, ids@),
            forall|u: u128| #[trigger] pages@.contains(u) <==> is_page(*s, u),
            block_index(*s, blocks@),
            tombstone_index(*s, tombs@),
            i <= sts@.len(),
            forall|k: int|
                0 <= k < i ==> !has_identity(
                    *s,
                    (#[trigger] sts@[k]).page_uuid,
                    PageKind::Handwriting,
                ),
            forall|a: int, b: int|
                0 <= a < b < i ==> (#[trigger] sts@[a]).block_uuid != (#[trigger] sts@[b]).block_uuid,
            forall|k: int| 0 <= k < i ==> is_block(*s, (#[trigger] sts@[k]).block_uuid),
            forall|a: int, k: int|
                0 <= a < i && 0 <= k < bs@.len() && (#[trigger] bs@[k]).uuid == (
                #[trigger] sts@[a]).block_uuid ==> bs@[k].page_uuid == sts@[a].page_uuid && is_page(
                    *s,
                    sts@[a].page_uuid,
                ) && !structure_disagrees(sts@[a], bs@[k]),
            forall|k: int|
                0 <= k < i ==> !((#[trigger] sts@[k]).parent_uuid is Some && block_elsewhere(
                    *s,
                    sts@[k].parent_uuid->0,
                    sts@[k].page_uuid,
                )),
            forall|k: int|
                0 <= k < i ==> !((#[trigger] sts@[k]).parent_uuid is Some && !is_block(
                    *s,
                    sts@[k].parent_uuid->0,
                ) && !tombstoned_as(*s, sts@[k].parent_uuid->0, ObjectKind::Block)),
            forall|u: u128|
                #[trigger] seen@.contains(u) <==> exists|k: int|
                    0 <= k < i && (#[trigger] sts@[k]).block_uuid == u,
        decreases sts@.len() - i,
    {
        let st = &sts[i];
        proof {
            lemma_identity_kind(*s, ids@, st.page_uuid, PageKind::Handwriting);
        }
        if identity_kind(ids, st.page_uuid) == Some(PageKind::Handwriting) {
            assert(has_identity(*s, sts@[i as int].page_uuid, PageKind::Handwriting));
            proof {
                lemma_fault_found(i as int, s.structures@.len() as int, structure_faults(*s), SnapshotError::StructureInHandwriting);
            }
            return Err(SnapshotError::StructureInHandwriting);
        }
        if seen.contains(&st.block_uuid) {
            let ghost k = choose|k: int| 0 <= k < i && (#[trigger] sts@[k]).block_uuid == st.block_uuid;
            assert(sts@[k].block_uuid == sts@[i as int].block_uuid);
            proof {
                lemma_fault_found(i as int, s.structures@.len() as int, structure_faults(*s), SnapshotError::DuplicateStructure);
            }
            return Err(SnapshotError::DuplicateStructure);
        }
        let idx = match blocks.get(&st.block_uuid) {
            Some(idx) => *idx,
            None => {
                assert(!is_block(*s, sts@[i as int].block_uuid));
                proof {
                    lemma_fault_found(i as int, s.structures@.len() as int, structure_faults(*s), SnapshotError::StructureMissingBlock);
                }
                return Err(SnapshotError::StructureMissingBlock);
            },
        };
        let b = &bs[idx];
        assert(bs@[idx as int].uuid == sts@[i as int].block_uuid);
        if st.page_uuid != b.page_uuid || !pages.contains(&st.page_uuid) {
            proof {
                lemma_fault_found(i as int, s.structures@.len() as int, structure_faults(*s), SnapshotError::StructurePageMismatch);
            }
            return Err(SnapshotError::StructurePageMismatch);
        }
        let hlc_matches = match &b.structure_hlc {
            Some(h) => *h == st.hlc,
            None => false,
        };
        if !hlc_matches || !(b.order_key == st.order_key) {
            assert(structure_disagrees(sts@[i as int], bs@[idx as int]));
            proof {
                lemma_fault_found(i as int, s.structures@.len() as int, structure_faults(*s), SnapshotError::StructureMismatch);
            }
            return Err(SnapshotError::StructureMismatch);
        }
        if let Some(p) = st.parent_uuid {
            match blocks.get(&p) {
                Some(pidx) => {
                    if bs[*pidx].page_uuid != st.page_uuid {
                        assert(bs@[*pidx as int].uuid == p);
                        assert(block_elsewhere(*s, p, sts@[i as int].page_uuid));
                        proof {
                            lemma_fault_found(i as int, s.structures@.len() as int, structure_faults(*s), SnapshotError::RawParentOtherPage);
                        }
                        return Err(SnapshotError::RawParentOtherPage);
                    }
                    proof {
                        assert forall|k: int|
                            0 <= k < s.blocks@.len() && (#[trigger] s.blocks@[k]).uuid == p implies s.blocks@[k].page_uuid
                            == st.page_uuid by {
                            assert(blocks@[s.blocks@[k].uuid] == k);
                        }
                    }
                },
                None => {
                    if tombstone_kind(s, tombs, p) != Some(ObjectKind::Block) {
                        assert(!is_block(*s, p));
                        proof {
                            lemma_fault_found(i as int, s.structures@.len() as int, structure_faults(*s), SnapshotError::RawParentUnknown);
                        }
                        return Err(SnapshotError::RawParentUnknown);
                    }
                },
            }
        }
        proof {
            assert forall|k: int|
                0 <= k < bs@.len() && (#[trigger] bs@[k]).uuid == st.block_uuid implies k == idx by {
                assert(blocks@[s.blocks@[k].uuid] == k);
            }
        }
        seen.insert(st.block_uuid);
        assert(structure_fault(*s, i as int) is None);
        assert(first_fault_in(i + 1, structure_faults(*s)) is None);
        i = i + 1;
    }
    proof {
        assert forall|u: u128| #[trigger] seen@.contains(u) <==> has_structure(*s, u) by {
            if has_structure(*s, u) {
                let k = choose|k: int|
                    0 <= k < s.structures@.len() && (#[trigger] s.structures@[k]).block_uuid == u;
                assert(sts@[k].block_uuid == u);
            }
        }
    }
    Ok(seen)
}

fn check_all_structured(
    s: &SyncSnapshot,
    journal: Ghost<Seq<u128>>,
    structured: &HashSet<u128>,
) -> (r: Result<(), SnapshotError>)
    requires
        forall|u: u128| #[trigger] structured@.contains(u) <==> has_structure(*s, u),
    ensures
        match r {
            Ok(_) => !breaks(*s, journal@, SnapshotError::BlockWithoutStructure) && first_fault_in(
                s.blocks@.len() as int,
                unstructured_faults(*s),
            ) is None,
            Err(e) => breaks(*s, journal@, e) && phase(e) == 9 && first_fault_in(
                s.blocks@.len() as int,
                unstructured_faults(*s),
            ) == Some(e),
        },
{
    let bs = &s.blocks;
    let mut i: usize = 0;
    while i < bs.len()
        invariant
            bs@ == s.blocks@,
            forall|u: u128| #[trigger] structured@.contains(u) <==> has_structure(*s, u),
            i <= bs@.len(),
            forall|k: int| 0 <= k < i ==> has_structure(*s, (#[trigger] bs@[k]).uuid),
            first_fault_in(i as int, unstructured_faults(*s)) is None,
        decreases bs@.len() - i,
    {
        if !structured.contains(&bs[i].uuid) {
            assert(!has_structure(*s, bs@[i as int].uuid));
            proof {
                lemma_fault_found(
                    i as int,
                    s.blocks@.len() as int,
                    unstructured_faults(*s),
                    SnapshotError::BlockWithoutStructure,
                );
            }
            return Err(SnapshotError::BlockWithoutStructure);
        }
        assert(first_fault_in(i + 1, unstructured_faults(*s)) is None);
        i = i + 1;
    }
    Ok(())
}

fn same_hash(a: &[u8; 32], b: &[u8; 32]) -> (r: bool)
    ensures
        r == (a@ == b@),
{
    let mut i: usize = 0;
    while i < 32
        invariant
            i <= 32,
            a@.len() == 32,
            b@.len() == 32,
            forall|k: int| 0 <= k < i ==> a@[k] == b@[k],
        decreases 32 - i,
    {
        if a[i] != b[i] {
            return false;
        }
        i = i + 1;
    }
    assert(a@ =~= b@);
    true
}

fn check_attachments(
    s: &SyncSnapshot,
    journal: Ghost<Seq<u128>>,
    pages: &HashSet<u128>,
    blocks: &HashMap<u128, usize>,
    tombs: &HashMap<u128, usize>,
) -> (r: Result<(), SnapshotError>)
    requires
        forall|u: u128| #[trigger] pages@.contains(u) <==> is_page(*s, u),
        block_index(*s, blocks@),
        tombstone_index(*s, tombs@),
    ensures
        match r {
            Ok(_) => {
                &&& !breaks(*s, journal@, SnapshotError::DuplicateAttachment)
                &&& !breaks(*s, journal@, SnapshotError::AttachmentOwnerUnknown)
                &&& first_fault_in(s.attachments@.len() as int, attachment_faults(*s)) is None
            },
            Err(e) => breaks(*s, journal@, e) && phase(e) == 10 && first_fault_in(
                s.attachments@.len() as int,
                attachment_faults(*s),
            ) == Some(e),
        },
{
    let atts = &s.attachments;
    let mut uuids: HashSet<u128> = HashSet::new();
    let mut i: usize = 0;
    while i < atts.len()
        invariant
            first_fault_in(i as int, attachment_faults(*s)) is None,
            atts@ == s.attachments@,
            forall|u: u128| #[trigger] pages@.contains(u) <==> is_page(*s, u),
            block_index(*s, blocks@),
            tombstone_index(*s, tombs@),
            i <= atts@.len(),
            forall|a: int, b: int|
                0 <= a < b < i ==> !same_attachment(#[trigger] atts@[a], #[trigger] atts@[b]),
            forall|k: int| 0 <= k < i ==> owner_known(*s, (#[trigger] atts@[k]).owner),
            forall|u: u128|
                #[trigger] uuids@.contains(u) <==> exists|k: int|
                    0 <= k < i && (#[trigger] atts@[k]).attachment_uuid == u,
        decreases atts@.len() - i,
    {
        let att = &atts[i];
        let mut j: usize = 0;
        while j < i
            invariant
                atts@ == s.attachments@,
                i < atts@.len(),
                j <= i,
                att == atts@[i as int],
                first_fault_in(i as int, attachment_faults(*s)) is None,
                forall|a: int|
                    0 <= a < j ==> !((#[trigger] atts@[a]).owner == att.owner && atts@[a].blob_hash@
                        == att.blob_hash@),
            decreases i - j,
        {
            if atts[j].owner == att.owner && same_hash(&atts[j].blob_hash, &att.blob_hash) {
                assert(same_attachment(atts@[j as int], atts@[i as int]));
                proof {
                    lemma_fault_found(i as int, s.attachments@.len() as int, attachment_faults(*s), SnapshotError::DuplicateAttachment);
                }
                return Err(SnapshotError::DuplicateAttachment);
            }
            j = j + 1;
        }
        if uuids.contains(&att.attachment_uuid) {
            let ghost k = choose|k: int|
                0 <= k < i && (#[trigger] atts@[k]).attachment_uuid == att.attachment_uuid;
            assert(same_attachment(atts@[k], atts@[i as int]));
            proof {
                lemma_fault_found(i as int, s.attachments@.len() as int, attachment_faults(*s), SnapshotError::DuplicateAttachment);
            }
            return Err(SnapshotError::DuplicateAttachment);
        }
        let known = match att.owner {
            AttachmentOwner::Page(u) => pages.contains(&u) || tombstone_kind(s, tombs, u) == Some(
                ObjectKind::Page,
            ),
            AttachmentOwner::Block(u) => blocks.contains_key(&u) || tombstone_kind(s, tombs, u)
                == Some(ObjectKind::Block),
        };
        if !known {
            assert(!owner_known(*s, atts@[i as int].owner));
            proof {
                lemma_fault_found(i as int, s.attachments@.len() as int, attachment_faults(*s), SnapshotError::AttachmentOwnerUnknown);
            }
            return Err(SnapshotError::AttachmentOwnerUnknown);
        }
        uuids.insert(att.attachment_uuid);
        assert(attachment_fault(*s, i as int) is None);
        assert(first_fault_in(i + 1, attachment_faults(*s)) is None);
        i = i + 1;
    }
    Ok(())
}

/// Checks that a snapshot is consistent on its own: every object has the identity, page,
/// parent and structure intent it names, nothing is both live and deleted, and nothing
/// occurs twice. `journal_uuids[i]` is the deterministic UUID that the journal page of
/// identity `i` must use, where that identity is a journal; it is not read for others.
pub fn validate_snapshot(snapshot: &SyncSnapshot, journal_uuids: &[u128]) -> (r: Result<
    (),
    SnapshotError,
>)
    requires
        journal_uuids@.len() == snapshot.page_identities@.len(),
    ensures
        r == match first_fault(*snapshot, journal_uuids@) {
            Some(e) => Err::<(), SnapshotError>(e),
            None => Ok(()),
        },
        r is Ok <==> snapshot_consistent(*snapshot, journal_uuids@),
        r matches Err(e) ==> breaks(*snapshot, journal_uuids@, e) && clear_before(
            *snapshot,
            journal_uuids@,
            phase(e),
        ),
{
    let ghost j = journal_uuids@;
    if snapshot.workspace_uuid == 0 {
        assert(breaks(*snapshot, j, SnapshotError::NilWorkspace));
        return Err(SnapshotError::NilWorkspace);
    }
    proof {
        assert forall|f: SnapshotError| phase(f) < 1 implies !#[trigger] breaks(*snapshot, j, f) by {
            match f {
                SnapshotError::NilWorkspace => {},
                _ => {},
            }
        }
    }
    let ids = match check_identities(snapshot, journal_uuids) {
        Ok(m) => m,
        Err(e) => return Err(e),
    };
    proof {
        assert forall|f: SnapshotError| phase(f) == 1 implies !#[trigger] breaks(*snapshot, j, f) by {
            match f {
                SnapshotError::JournalUuid => {},
                SnapshotError::DuplicatePageIdentity => {},
                SnapshotError::DuplicateJournalDate => {},
                _ => {},
            }
        }
        lemma_clear_next(*snapshot, j, 1);
    }
    match check_ink(snapshot, Ghost(j), &ids) {
        Ok(_) => {},
        Err(e) => return Err(e),
    }
    proof {
        assert forall|f: SnapshotError| phase(f) == 2 implies !#[trigger] breaks(*snapshot, j, f) by {
            match f {
                SnapshotError::MalformedInk => {},
                SnapshotError::InvalidInkVersion => {},
                _ => {},
            }
        }
        lemma_clear_next(*snapshot, j, 2);
    }
    let pages = match check_pages(snapshot, Ghost(j), &ids) {
        Ok(p) => p,
        Err(e) => return Err(e),
    };
    proof {
        assert forall|f: SnapshotError| phase(f) == 3 implies !#[trigger] breaks(*snapshot, j, f) by {
            match f {
                SnapshotError::PageWithoutIdentity => {},
                SnapshotError::JournalTitle => {},
                SnapshotError::DuplicatePage => {},
                _ => {},
            }
        }
        lemma_clear_next(*snapshot, j, 3);
    }
    match check_aliases(snapshot, Ghost(j), &ids) {
        Ok(_) => {},
        Err(e) => return Err(e),
    }
    proof {
        assert forall|f: SnapshotError| phase(f) == 4 implies !#[trigger] breaks(*snapshot, j, f) by {
            match f {
                SnapshotError::AliasUnknownPage => {},
                SnapshotError::DuplicateAlias => {},
                _ => {},
            }
        }
        lemma_clear_next(*snapshot, j, 4);
    }
    let blocks = match check_blocks(snapshot, Ghost(j), &ids, &pages) {
        Ok(m) => m,
        Err(e) => return Err(e),
    };
    proof {
        assert forall|f: SnapshotError| phase(f) == 5 implies !#[trigger] breaks(*snapshot, j, f) by {
            match f {
                SnapshotError::BlockIsPage => {},
                SnapshotError::DuplicateBlock => {},
                SnapshotError::BlockInHandwriting => {},
                SnapshotError::BlockMissingPage => {},
                _ => {},
            }
        }
        lemma_clear_next(*snapshot, j, 5);
    }
    let tombs = match check_tombstones(snapshot, Ghost(j), &ids, &pages, &blocks) {
        Ok(m) => m,
        Err(e) => return Err(e),
    };
    proof {
        assert forall|f: SnapshotError| phase(f) == 6 implies !#[trigger] breaks(*snapshot, j, f) by {
            match f {
                SnapshotError::DuplicateTombstone => {},
                SnapshotError::TombstoneLive => {},
                SnapshotError::PageTombstoneWithoutIdentity => {},
                SnapshotError::PageTombstoneRoot => {},
                SnapshotError::BlockTombstoneRoot => {},
                _ => {},
            }
        }
        lemma_clear_next(*snapshot, j, 6);
    }
    match check_parents(snapshot, Ghost(j), &blocks) {
        Ok(_) => {},
        Err(e) => return Err(e),
    }
    proof {
        assert forall|f: SnapshotError| phase(f) == 7 implies !#[trigger] breaks(*snapshot, j, f) by {
            match f {
                SnapshotError::MissingParent => {},
                SnapshotError::ParentOnOtherPage => {},
                _ => {},
            }
        }
        lemma_clear_next(*snapshot, j, 7);
    }
    let structured = match check_structures(snapshot, Ghost(j), &ids, &pages, &blocks, &tombs) {
        Ok(set) => set,
        Err(e) => return Err(e),
    };
    proof {
        assert forall|f: SnapshotError| phase(f) == 8 implies !#[trigger] breaks(*snapshot, j, f) by {
            match f {
                SnapshotError::StructureInHandwriting => {},
                SnapshotError::DuplicateStructure => {},
                SnapshotError::StructureMissingBlock => {},
                SnapshotError::StructurePageMismatch => {},
                SnapshotError::StructureMismatch => {},
                SnapshotError::RawParentOtherPage => {},
                SnapshotError::RawParentUnknown => {},
                _ => {},
            }
        }
        lemma_clear_next(*snapshot, j, 8);
    }
    match check_all_structured(snapshot, Ghost(j), &structured) {
        Ok(_) => {},
        Err(e) => return Err(e),
    }
    proof {
        assert forall|f: SnapshotError| phase(f) == 9 implies !#[trigger] breaks(*snapshot, j, f) by {
            match f {
                SnapshotError::BlockWithoutStructure => {},
                _ => {},
            }
        }
        lemma_clear_next(*snapshot, j, 9);
    }
    match check_attachments(snapshot, Ghost(j), &pages, &blocks, &tombs) {
        Ok(_) => {},
        Err(e) => return Err(e),
    }
    proof {
        assert forall|f: SnapshotError| phase(f) == 10 implies !#[trigger] breaks(*snapshot, j, f) by {
            match f {
                SnapshotError::DuplicateAttachment => {},
                SnapshotError::AttachmentOwnerUnknown => {},
                _ => {},
            }
        }
        lemma_clear_next(*snapshot, j, 10);
        assert forall|e: SnapshotError| !#[trigger] breaks(*snapshot, j, e) by {
            assert(phase(e) < 11);
        }
    }
    Ok(())
}

/// Why a replica refuses to replace its state with a snapshot.
#[derive(Debug, Clone, Copy, PartialEq, Eq, Structural)]
pub enum ImportError {
    /// The snapshot's format version is not one this build reads, or version 6 carries
    /// handwriting.
    UnsupportedFormatVersion(u32),
    /// The snapshot is not consistent on its own.
    Inconsistent(SnapshotError),
    /// A page title is blank.
    BlankTitle,
    /// A structure intent names its own block as the parent.
    OwnParent,
    /// An attachment UUID is not the one derived from its owner and hash.
    AttachmentUuidMismatch,
    /// A present attachment has no filename.
    MissingFilename,
    /// A present attachment's filename is not a portable basename.
    NonPortableFilename,
    /// A present attachment has no MIME type.
    MissingMime,
    /// A present attachment has no size, or one that does not fit a signed 64-bit integer.
    InvalidSize,
}

/// Format version 6 predates handwriting: it can carry neither a handwriting version nor
/// a handwriting identity.
pub open spec fn format_unsupported(s: SyncSnapshot) -> bool {
    ||| !(s.format_version == 6 || s.format_version == FORMAT_VERSION)
    ||| (s.format_version == 6 && (s.ink_versions@.len() > 0 || exists|i: int|
        0 <= i < s.page_identities@.len() && (#[trigger] s.page_identities@[i]).kind
            == PageKind::Handwriting))
}

pub open spec fn derived_attachment_uuid(a: SnapshotAttachment) -> u128 {
    uuid_v5(NAMESPACE_OID, attachment_name(a.owner, a.blob_hash@))
}

pub open spec fn mime_missing(mime: Option<String>) -> bool {
    match mime {
        Some(m) => is_blank(m@),
        None => true,
    }
}

pub open spec fn size_invalid(size: Option<u64>) -> bool {
    match size {
        Some(n) => n > i64::MAX,
        None => true,
    }
}

/// Whether the snapshot breaks the import rule that `e` names.
pub open spec fn import_breaks(s: SyncSnapshot, journal: Seq<u128>, e: ImportError) -> bool {
    let pages = s.pages@;
    let sts = s.structures@;
    let atts = s.attachments@;
    match e {
        ImportError::UnsupportedFormatVersion(v) => v == s.format_version && format_unsupported(s),
        ImportError::Inconsistent(x) => breaks(s, journal, x),
        ImportError::BlankTitle => exists|i: int|
            0 <= i < pages.len() && (#[trigger] pages[i]).title is Some && is_blank(
                pages[i].title->0@,
            ),
        ImportError::OwnParent => exists|i: int|
            0 <= i < sts.len() && (#[trigger] sts[i]).parent_uuid == Some(sts[i].block_uuid),
        ImportError::AttachmentUuidMismatch => exists|i: int|
            0 <= i < atts.len() && (#[trigger] atts[i]).attachment_uuid != derived_attachment_uuid(
                atts[i],
            ),
        ImportError::MissingFilename => exists|i: int|
            0 <= i < atts.len() && (#[trigger] atts[i]).present && atts[i].filename is None,
        ImportError::NonPortableFilename => exists|i: int|
            0 <= i < atts.len() && (#[trigger] atts[i]).present && atts[i].filename is Some
                && !filename_ok(atts[i].filename->0@),
        ImportError::MissingMime => exists|i: int|
            0 <= i < atts.len() && (#[trigger] atts[i]).present && mime_missing(atts[i].mime),
        ImportError::InvalidSize => exists|i: int|
            0 <= i < atts.len() && (#[trigger] atts[i]).present && size_invalid(atts[i].size),
    }
}

/// The import rule attachment `i` breaks first.
pub open spec fn attachment_field_fault(s: SyncSnapshot, i: int) -> Option<ImportError> {
    let a = s.attachments@[i];
    if a.attachment_uuid != derived_attachment_uuid(a) {
        Some(ImportError::AttachmentUuidMismatch)
    } else if !a.present {
        None
    } else if a.filename is None {
        Some(ImportError::MissingFilename)
    } else if !filename_ok(a.filename->0@) {
        Some(ImportError::NonPortableFilename)
    } else if mime_missing(a.mime) {
        Some(ImportError::MissingMime)
    } else if size_invalid(a.size) {
        Some(ImportError::InvalidSize)
    } else {
        None
    }
}

pub open spec fn attachment_field_faults(s: SyncSnapshot) -> spec_fn(int) -> Option<ImportError> {
    |i: int| attachment_field_fault(s, i)
}

/// The error a snapshot import is refused with: the first import rule broken.
pub open spec fn first_import_fault(s: SyncSnapshot, journal: Seq<u128>) -> Option<ImportError> {
    if format_unsupported(s) {
        Some(ImportError::UnsupportedFormatVersion(s.format_version))
    } else if first_fault(s, journal) is Some {
        Some(ImportError::Inconsistent(first_fault(s, journal)->0))
    } else if import_breaks(s, journal, ImportError::BlankTitle) {
        Some(ImportError::BlankTitle)
    } else if import_breaks(s, journal, ImportError::OwnParent) {
        Some(ImportError::OwnParent)
    } else {
        first_fault_in(s.attachments@.len() as int, attachment_field_faults(s))
    }
}

/// The order in which the import rules are checked.
pub open spec fn import_phase(e: ImportError) -> int {
    match e {
        ImportError::UnsupportedFormatVersion(_) => 0,
        ImportError::Inconsistent(_) => 1,
        ImportError::BlankTitle => 2,
        ImportError::OwnParent => 3,
        _ => 4,
    }
}

/// Every import rule checked before phase `k` holds.
pub open spec fn import_clear_before(s: SyncSnapshot, journal: Seq<u128>, k: int) -> bool {
    forall|f: ImportError| import_phase(f) < k ==> !#[trigger] import_breaks(s, journal, f)
}

/// A snapshot may replace a replica's state when it breaks none of the import rules.
pub open spec fn importable(s: SyncSnapshot, journal: Seq<u128>) -> bool {
    forall|e: ImportError| !#[trigger] import_breaks(s, journal, e)
}

fn check_format(s: &SyncSnapshot) -> (r: bool)
    ensures
        r == format_unsupported(*s),
{
    if !(s.format_version == 6 || s.format_version == FORMAT_VERSION) {
        return true;
    }
    if s.format_version != 6 {
        return false;
    }
    if s.ink_versions.len() > 0 {
        return true;
    }
    let ids = &s.page_identities;
    let mut i: usize = 0;
    while i < ids.len()
        invariant
            ids@ == s.page_identities@,
            s.format_version == 6,
            i <= ids@.len(),
            forall|k: int| 0 <= k < i ==> (#[trigger] ids@[k]).kind != PageKind::Handwriting,
        decreases ids@.len() - i,
    {
        if ids[i].kind == PageKind::Handwriting {
            assert(s.page_identities@[i as int].kind == PageKind::Handwriting);
            return true;
        }
        i = i + 1;
    }
    false
}

fn check_attachment_fields(s: &SyncSnapshot, journal: Ghost<Seq<u128>>) -> (r: Result<(), ImportError>)
    ensures
        match r {
            Ok(_) => {
                &&& !import_breaks(*s, journal@, ImportError::AttachmentUuidMismatch)
                &&& !import_breaks(*s, journal@, ImportError::MissingFilename)
                &&& !import_breaks(*s, journal@, ImportError::NonPortableFilename)
                &&& !import_breaks(*s, journal@, ImportError::MissingMime)
                &&& !import_breaks(*s, journal@, ImportError::InvalidSize)
                &&& first_fault_in(s.attachments@.len() as int, attachment_field_faults(*s)) is None
            },
            Err(e) => import_breaks(*s, journal@, e) && import_phase(e) == 4 && first_fault_in(
                s.attachments@.len() as int,
                attachment_field_faults(*s),
            ) == Some(e),
        },
{
    let atts = &s.attachments;
    let mut i: usize = 0;
    while i < atts.len()
        invariant
            atts@ == s.attachments@,
            i <= atts@.len(),
            first_fault_in(i as int, attachment_field_faults(*s)) is None,
            forall|k: int|
                0 <= k < i ==> (#[trigger] atts@[k]).attachment_uuid == derived_attachment_uuid(
                    atts@[k],
                ),
            forall|k: int|
                0 <= k < i && (#[trigger] atts@[k]).present ==> {
                    &&& atts@[k].filename is Some
                    &&& filename_ok(atts@[k].filename->0@)
                    &&& !mime_missing(atts@[k].mime)
                    &&& !size_invalid(atts@[k].size)
                },
        decreases atts@.len() - i,
    {
        let att = &atts[i];
        if att.attachment_uuid != attachment_uuid(att.owner, &att.blob_hash) {
            assert(atts@[i as int].attachment_uuid != derived_attachment_uuid(atts@[i as int]));
            proof {
                lemma_fault_found(
                    i as int,
                    s.attachments@.len() as int,
                    attachment_field_faults(*s),
                    ImportError::AttachmentUuidMismatch,
                );
            }
            return Err(ImportError::AttachmentUuidMismatch);
        }
        if att.present {
            match &att.filename {
                None => {
                    assert(atts@[i as int].present && atts@[i as int].filename is None);
                    proof {
                        lemma_fault_found(
                            i as int,
                            s.attachments@.len() as int,
                            attachment_field_faults(*s),
                            ImportError::MissingFilename,
                        );
                    }
                    return Err(ImportError::MissingFilename);
                },
                Some(f) => {
                    if validate_attachment_filename(f.as_str()).is_err() {
                        assert(atts@[i as int].present && !filename_ok(atts@[i as int].filename->0@));
                        proof {
                            lemma_fault_found(
                                i as int,
                                s.attachments@.len() as int,
                                attachment_field_faults(*s),
                                ImportError::NonPortableFilename,
                            );
                        }
                        return Err(ImportError::NonPortableFilename);
                    }
                },
            }
            let mime_bad = match &att.mime {
                Some(m) => blank(m.as_str()),
                None => true,
            };
            if mime_bad {
                assert(atts@[i as int].present && mime_missing(atts@[i as int].mime));
                proof {
                    lemma_fault_found(
                        i as int,
                        s.attachments@.len() as int,
                        attachment_field_faults(*s),
                        ImportError::MissingMime,
                    );
                }
                return Err(ImportError::MissingMime);
            }
            let size_bad = match att.size {
                Some(n) => n > 0x7fff_ffff_ffff_ffffu64,
                None => true,
            };
            if size_bad {
                assert(atts@[i as int].present && size_invalid(atts@[i as int].size));
                proof {
                    lemma_fault_found(
                        i as int,
                        s.attachments@.len() as int,
                        attachment_field_faults(*s),
                        ImportError::InvalidSize,
                    );
                }
                return Err(ImportError::InvalidSize);
            }
        }
        assert(attachment_field_fault(*s, i as int) is None);
        assert(first_fault_in(i + 1, attachment_field_faults(*s)) is None);
        i = i + 1;
    }
    Ok(())
}

/// Checks everything about a snapshot that can be known before a replica's state is
/// touched: a readable format version, a consistent snapshot, titles that are not blank,
/// no block that is its own parent, attachment UUIDs derived from owner and hash, and
/// complete metadata for every present attachment. `journal_uuids` is as for
/// [`validate_snapshot`].
pub fn validate_import(snapshot: &SyncSnapshot, journal_uuids: &[u128]) -> (r: Result<
    (),
    ImportError,
>)
    requires
        journal_uuids@.len() == snapshot.page_identities@.len(),
    ensures
        r == match first_import_fault(*snapshot, journal_uuids@) {
            Some(e) => Err::<(), ImportError>(e),
            None => Ok(()),
        },
        r is Ok <==> importable(*snapshot, journal_uuids@),
        r matches Err(e) ==> import_breaks(*snapshot, journal_uuids@, e) && import_clear_before(
            *snapshot,
            journal_uuids@,
            import_phase(e),
        ),
        r matches Err(ImportError::Inconsistent(x)) ==> clear_before(
            *snapshot,
            journal_uuids@,
            phase(x),
        ),
{
    let ghost j = journal_uuids@;
    if check_format(snapshot) {
        assert(import_breaks(*snapshot, j, ImportError::UnsupportedFormatVersion(snapshot.format_version)));
        return Err(ImportError::UnsupportedFormatVersion(snapshot.format_version));
    }
    assert(import_clear_before(*snapshot, j, 1));
    match validate_snapshot(snapshot, journal_uuids) {
        Ok(_) => {},
        Err(e) => {
            assert(import_breaks(*snapshot, j, ImportError::Inconsistent(e)));
            return Err(ImportError::Inconsistent(e));
        },
    }
    assert(import_clear_before(*snapshot, j, 2)) by {
        assert forall|f: ImportError| import_phase(f) < 2 implies !#[trigger] import_breaks(
            *snapshot,
            j,
            f,
        ) by {
            match f {
                ImportError::Inconsistent(x) => {
                    assert(!breaks(*snapshot, j, x));
                },
                _ => {},
            }
        }
    }
    let pages = &snapshot.pages;
    let mut i: usize = 0;
    while i < pages.len()
        invariant
            pages@ == snapshot.pages@,
            j == journal_uuids@,
            import_clear_before(*snapshot, j, 2),
            !format_unsupported(*snapshot),
            first_fault(*snapshot, j) is None,
            i <= pages@.len(),
            forall|k: int|
                0 <= k < i ==> !((#[trigger] pages@[k]).title is Some && is_blank(
                    pages@[k].title->0@,
                )),
        decreases pages@.len() - i,
    {
        if let Some(t) = &pages[i].title {
            if blank(t.as_str()) {
                assert(snapshot.pages@[i as int].title is Some && is_blank(
                    snapshot.pages@[i as int].title->0@,
                ));
                assert(import_breaks(*snapshot, j, ImportError::BlankTitle));
                return Err(ImportError::BlankTitle);
            }
        }
        i = i + 1;
    }
    assert(import_clear_before(*snapshot, j, 3)) by {
        assert forall|f: ImportError| import_phase(f) < 3 implies !#[trigger] import_breaks(
            *snapshot,
            j,
            f,
        ) by {
            if f == ImportError::BlankTitle {
                assert(!import_breaks(*snapshot, j, ImportError::BlankTitle));
            }
        }
    }
    let sts = &snapshot.structures;
    let mut i: usize = 0;
    while i < sts.len()
        invariant
            sts@ == snapshot.structures@,
            j == journal_uuids@,
            import_clear_before(*snapshot, j, 3),
            !format_unsupported(*snapshot),
            first_fault(*snapshot, j) is None,
            i <= sts@.len(),
            forall|k: int|
                0 <= k < i ==> (#[trigger] sts@[k]).parent_uuid != Some(sts@[k].block_uuid),
        decreases sts@.len() - i,
    {
        if sts[i].parent_uuid == Some(sts[i].block_uuid) {
            assert(snapshot.structures@[i as int].parent_uuid == Some(
                snapshot.structures@[i as int].block_uuid,
            ));
            assert(import_breaks(*snapshot, j, ImportError::OwnParent));
            return Err(ImportError::OwnParent);
        }
        i = i + 1;
    }
    assert(import_clear_before(*snapshot, j, 4)) by {
        assert forall|f: ImportError| import_phase(f) < 4 implies !#[trigger] import_breaks(
            *snapshot,
            j,
            f,
        ) by {
            if f == ImportError::OwnParent {
                assert(!import_breaks(*snapshot, j, ImportError::OwnParent));
            }
        }
    }
    match check_attachment_fields(snapshot, Ghost(j)) {
        Ok(_) => {},
        Err(e) => {
            assert(import_breaks(*snapshot, j, e));
            return Err(e);
        },
    }
    proof {
        assert forall|e: ImportError| !#[trigger] import_breaks(*snapshot, j, e) by {
            match e {
                ImportError::Inconsistent(x) => {
                    assert(!breaks(*snapshot, j, x));
                },
                _ => {},
            }
        }
    }
    Ok(())
}

/// Why a consistent snapshot still may not replace this replica's state.
#[derive(Debug, Clone, Copy, PartialEq, Eq, Structural)]
pub enum ImportConflict {
    /// The snapshot belongs to another workspace, and this replica holds state of its own.
    ForeignWorkspace,
    /// The snapshot would remove a handwritten note that is open or not yet published.
    OpenHandwriting,
}

/// What importing a snapshot does beyond replacing the synchronized tables.
pub struct ImportPlan {
    /// The pages whose drawings are purged: the snapshot names them neither as an
    /// identity nor as a page.
    pub purge_ink: Vec<u128>,
    /// Whether the receipts of external imports are forgotten: the workspace changes.
    pub clear_import_receipts: bool,
}

/// A drawing survives an import when the snapshot names its page.
pub open spec fn retained(s: SyncSnapshot, page: u128) -> bool {
    is_identity(s, page) || is_page(s, page)
}

/// `pages` without those the snapshot retains, in order.
pub open spec fn unretained(s: SyncSnapshot, pages: Seq<u128>) -> Seq<u128>
    decreases pages.len(),
{
    if pages.len() == 0 {
        pages
    } else if retained(s, pages.last()) {
        unretained(s, pages.drop_last())
    } else {
        unretained(s, pages.drop_last()).push(pages.last())
    }
}

pub open spec fn import_conflict(
    s: SyncSnapshot,
    current_workspace: u128,
    has_source_state: bool,
    active_ink: Seq<u128>,
) -> Option<ImportConflict> {
    if current_workspace != s.workspace_uuid && has_source_state {
        Some(ImportConflict::ForeignWorkspace)
    } else if exists|i: int| 0 <= i < active_ink.len() && !is_page(s, #[trigger] active_ink[i]) {
        Some(ImportConflict::OpenHandwriting)
    } else {
        None
    }
}

/// Decides what importing a snapshot does to a replica whose workspace is
/// `current_workspace`. `has_source_state` says whether the replica holds pages, identities
/// or tombstones; `active_ink` lists the live pages whose drawing is open, dirty or awaiting
/// publication; `stored_ink` lists the pages that have a stored drawing.
pub fn plan_import(
    snapshot: &SyncSnapshot,
    current_workspace: u128,
    has_source_state: bool,
    active_ink: &[u128],
    stored_ink: &[u128],
) -> (r: Result<ImportPlan, ImportConflict>)
    ensures
        match import_conflict(*snapshot, current_workspace, has_source_state, active_ink@) {
            Some(c) => r == Err::<ImportPlan, ImportConflict>(c),
            None => r matches Ok(plan) && plan.purge_ink@ == unretained(*snapshot, stored_ink@)
                && plan.clear_import_receipts == (current_workspace != snapshot.workspace_uuid),
        },
{
    if current_workspace != snapshot.workspace_uuid && has_source_state {
        return Err(ImportConflict::ForeignWorkspace);
    }
    let mut pages: HashSet<u128> = HashSet::new();
    let mut i: usize = 0;
    while i < snapshot.pages.len()
        invariant
            i <= snapshot.pages@.len(),
            forall|u: u128|
                #[trigger] pages@.contains(u) <==> exists|k: int|
                    0 <= k < i && (#[trigger] snapshot.pages@[k]).uuid == u,
        decreases snapshot.pages@.len() - i,
    {
        pages.insert(snapshot.pages[i].uuid);
        i = i + 1;
    }
    let mut ids: HashSet<u128> = HashSet::new();
    let mut i: usize = 0;
    while i < snapshot.page_identities.len()
        invariant
            i <= snapshot.page_identities@.len(),
            forall|u: u128|
                #[trigger] ids@.contains(u) <==> exists|k: int|
                    0 <= k < i && (#[trigger] snapshot.page_identities@[k]).uuid == u,
        decreases snapshot.page_identities@.len() - i,
    {
        ids.insert(snapshot.page_identities[i].uuid);
        i = i + 1;
    }
    assert(forall|u: u128| #[trigger] pages@.contains(u) <==> is_page(*snapshot, u));
    assert(forall|u: u128| #[trigger] ids@.contains(u) <==> is_identity(*snapshot, u));
    let mut i: usize = 0;
    while i < active_ink.len()
        invariant
            i <= active_ink@.len(),
            !(current_workspace != snapshot.workspace_uuid && has_source_state),
            forall|u: u128| #[trigger] pages@.contains(u) <==> is_page(*snapshot, u),
            forall|k: int| 0 <= k < i ==> is_page(*snapshot, #[trigger] active_ink@[k]),
        decreases active_ink@.len() - i,
    {
        if !pages.contains(&active_ink[i]) {
            assert(!is_page(*snapshot, active_ink@[i as int]));
            return Err(ImportConflict::OpenHandwriting);
        }
        i = i + 1;
    }
    let mut purge: Vec<u128> = Vec::new();
    let mut i: usize = 0;
    assert(stored_ink@.take(0) =~= Seq::<u128>::empty());
    while i < stored_ink.len()
        invariant
            i <= stored_ink@.len(),
            !(current_workspace != snapshot.workspace_uuid && has_source_state),
            forall|k: int| 0 <= k < active_ink@.len() ==> is_page(*snapshot, #[trigger] active_ink@[k]),
            forall|u: u128| #[trigger] pages@.contains(u) <==> is_page(*snapshot, u),
            forall|u: u128| #[trigger] ids@.contains(u) <==> is_identity(*snapshot, u),
            purge@ == unretained(*snapshot, stored_ink@.take(i as int)),
        decreases stored_ink@.len() - i,
    {
        let page = stored_ink[i];
        assert(stored_ink@.take(i + 1).drop_last() =~= stored_ink@.take(i as int));
        assert(stored_ink@.take(i + 1).last() == page);
        if !(ids.contains(&page) || pages.contains(&page)) {
            purge.push(page);
        }
        i = i + 1;
    }
    assert(stored_ink@.take(stored_ink@.len() as int) =~= stored_ink@);
    Ok(ImportPlan { purge_ink: purge, clear_import_receipts: current_workspace != snapshot.workspace_uuid })
}

/// A snapshot that may replace a replica's state is consistent on its own.
pub proof fn lemma_importable_is_consistent(s: SyncSnapshot, journal: Seq<u128>)
    requires
        importable(s, journal),
    ensures
        snapshot_consistent(s, journal),
{
    assert forall|e: SnapshotError| !#[trigger] breaks(s, journal, e) by {
        assert(!import_breaks(s, journal, ImportError::Inconsistent(e)));
    }
}

} // verus!
