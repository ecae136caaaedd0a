use tangleaf::identity::attachment_uuid;
use tangleaf::model::{AttachmentOwner, JournalDate, ObjectKind, PageKind};
use tangleaf::operation::InkPublish;
use tangleaf::snapshot::{
    plan_import, validate_import, validate_snapshot, ImportConflict, ImportError, InkVersion,
    SnapshotAttachment, SnapshotBlock, SnapshotBlockStructure, SnapshotError, SnapshotPage,
    SnapshotPageAlias, SnapshotPageIdentity, SnapshotTombstone, SyncSnapshot,
};

const WORKSPACE: u128 = 100;
const PAGE: u128 = 1;
const BLOCK: u128 = 10;
const CHILD: u128 = 11;

fn page(uuid: u128, kind: PageKind, title: Option<&str>) -> SnapshotPage {
    SnapshotPage {
        uuid,
        kind,
        title: title.map(str::to_string),
        layout: "outline".to_string(),
        title_hlc: None,
        layout_hlc: None,
        existence_hlc: "1".to_string(),
        created_at: 0,
        updated_at: 0,
    }
}

fn block(uuid: u128, page_uuid: u128, parent: Option<u128>) -> SnapshotBlock {
    SnapshotBlock {
        uuid,
        page_uuid,
        parent_uuid: parent,
        order_key: "a0".to_string(),
        style: "paragraph".to_string(),
        markdown: String::new(),
        markdown_hlc: None,
        style_hlc: None,
        structure_hlc: Some("2".to_string()),
        existence_hlc: "2".to_string(),
        created_at: 0,
        updated_at: 0,
    }
}

fn structure(block_uuid: u128, page_uuid: u128, parent: Option<u128>) -> SnapshotBlockStructure {
    SnapshotBlockStructure {
        block_uuid,
        page_uuid,
        parent_uuid: parent,
        order_key: "a0".to_string(),
        hlc: "2".to_string(),
    }
}

fn tombstone(uuid: u128, kind: ObjectKind, root: Option<u128>) -> SnapshotTombstone {
    SnapshotTombstone { uuid, object_kind: kind, deleted_hlc: "3".to_string(), root_page_uuid: root }
}

fn attachment(owner: AttachmentOwner) -> SnapshotAttachment {
    let blob_hash = [0xabu8; 32];
    SnapshotAttachment {
        owner,
        blob_hash,
        attachment_uuid: attachment_uuid(owner, &blob_hash),
        hlc: "4".to_string(),
        present: true,
        filename: Some("a.png".to_string()),
        mime: Some("image/png".to_string()),
        size: Some(10),
    }
}

/// One note with a block and its child, an alias, a deleted block and an attachment.
fn consistent() -> SyncSnapshot {
    SyncSnapshot {
        ink_versions: Vec::new(),
        format_version: 7,
        workspace_uuid: WORKSPACE,
        seq: 12,
        page_identities: vec![SnapshotPageIdentity { uuid: PAGE, kind: PageKind::Note }],
        pages: vec![page(PAGE, PageKind::Note, Some("Roadmap"))],
        page_aliases: vec![SnapshotPageAlias {
            page_uuid: PAGE,
            alias: "plan".to_string(),
            hlc: "2".to_string(),
            present: true,
        }],
        blocks: vec![block(BLOCK, PAGE, None), block(CHILD, PAGE, Some(BLOCK))],
        structures: vec![structure(BLOCK, PAGE, None), structure(CHILD, PAGE, Some(BLOCK))],
        tombstones: vec![tombstone(12, ObjectKind::Block, Some(PAGE))],
        attachments: vec![attachment(AttachmentOwner::Block(BLOCK))],
    }
}

fn journals(s: &SyncSnapshot) -> Vec<u128> {
    s.page_identities.iter().map(|identity| identity.uuid).collect()
}

fn check(s: &SyncSnapshot) -> Result<(), SnapshotError> {
    validate_snapshot(s, &journals(s))
}

#[test]
fn a_consistent_snapshot_is_accepted() {
    let s = consistent();
    assert_eq!(check(&s), Ok(()));
    assert_eq!(validate_import(&s, &journals(&s)), Ok(()));
}

#[test]
fn identities_must_be_unique_and_journals_deterministic() {
    let mut s = consistent();
    s.workspace_uuid = 0;
    assert_eq!(check(&s), Err(SnapshotError::NilWorkspace));

    let mut s = consistent();
    s.page_identities.push(SnapshotPageIdentity { uuid: PAGE, kind: PageKind::Note });
    assert_eq!(check(&s), Err(SnapshotError::DuplicatePageIdentity));

    let date = JournalDate { year: 2026, month: 9, day: 7 };
    let mut s = consistent();
    s.page_identities.push(SnapshotPageIdentity { uuid: 50, kind: PageKind::Journal { date } });
    assert_eq!(validate_snapshot(&s, &[PAGE, 51]), Err(SnapshotError::JournalUuid));
    assert_eq!(validate_snapshot(&s, &[PAGE, 50]), Ok(()));
    s.page_identities.push(SnapshotPageIdentity { uuid: 52, kind: PageKind::Journal { date } });
    assert_eq!(validate_snapshot(&s, &[PAGE, 50, 52]), Err(SnapshotError::DuplicateJournalDate));
}

#[test]
fn handwriting_versions_need_a_handwritten_note() {
    let publication = |version_uuid, well_formed| InkVersion {
        publication: InkPublish { page_uuid: 60, version_uuid, well_formed },
    };
    let mut s = consistent();
    s.page_identities.push(SnapshotPageIdentity { uuid: 60, kind: PageKind::Handwriting });
    s.ink_versions.push(publication(61, true));
    assert_eq!(check(&s), Ok(()));
    s.ink_versions.push(publication(61, true));
    assert_eq!(check(&s), Err(SnapshotError::InvalidInkVersion));
    s.ink_versions.pop();
    s.ink_versions.push(publication(62, false));
    assert_eq!(check(&s), Err(SnapshotError::MalformedInk));
    let mut s = consistent();
    s.ink_versions.push(publication(61, true));
    assert_eq!(check(&s), Err(SnapshotError::InvalidInkVersion));
}

#[test]
fn pages_and_aliases_need_their_identity() {
    let mut s = consistent();
    s.pages[0].kind = PageKind::Handwriting;
    assert_eq!(check(&s), Err(SnapshotError::PageWithoutIdentity));

    let date = JournalDate { year: 2026, month: 1, day: 1 };
    let mut s = consistent();
    s.page_identities.push(SnapshotPageIdentity { uuid: 70, kind: PageKind::Journal { date } });
    s.pages.push(page(70, PageKind::Journal { date }, Some("Title")));
    assert_eq!(check(&s), Err(SnapshotError::JournalTitle));

    let mut s = consistent();
    s.pages.push(page(PAGE, PageKind::Note, None));
    assert_eq!(check(&s), Err(SnapshotError::DuplicatePage));

    let mut s = consistent();
    s.page_aliases[0].page_uuid = 99;
    assert_eq!(check(&s), Err(SnapshotError::AliasUnknownPage));

    let mut s = consistent();
    let again = s.page_aliases[0].clone();
    s.page_aliases.push(again);
    assert_eq!(check(&s), Err(SnapshotError::DuplicateAlias));
}

#[test]
fn blocks_must_sit_on_live_text_pages() {
    let mut s = consistent();
    s.blocks.push(block(PAGE, PAGE, None));
    assert_eq!(check(&s), Err(SnapshotError::BlockIsPage));

    let mut s = consistent();
    s.blocks.push(block(BLOCK, PAGE, None));
    assert_eq!(check(&s), Err(SnapshotError::DuplicateBlock));

    let mut s = consistent();
    s.page_identities.push(SnapshotPageIdentity { uuid: 60, kind: PageKind::Handwriting });
    s.pages.push(page(60, PageKind::Handwriting, None));
    s.blocks.push(block(20, 60, None));
    assert_eq!(check(&s), Err(SnapshotError::BlockInHandwriting));

    let mut s = consistent();
    s.blocks.push(block(20, 99, None));
    assert_eq!(check(&s), Err(SnapshotError::BlockMissingPage));
}

#[test]
fn tombstones_must_not_contradict_live_objects() {
    let mut s = consistent();
    s.tombstones.push(tombstone(12, ObjectKind::Block, Some(PAGE)));
    assert_eq!(check(&s), Err(SnapshotError::DuplicateTombstone));

    let mut s = consistent();
    s.tombstones.push(tombstone(BLOCK, ObjectKind::Block, Some(PAGE)));
    assert_eq!(check(&s), Err(SnapshotError::TombstoneLive));

    let mut s = consistent();
    s.tombstones.push(tombstone(PAGE, ObjectKind::Block, Some(PAGE)));
    assert_eq!(check(&s), Err(SnapshotError::TombstoneLive));

    let mut s = consistent();
    s.tombstones.push(tombstone(80, ObjectKind::Page, Some(80)));
    assert_eq!(check(&s), Err(SnapshotError::PageTombstoneWithoutIdentity));

    let mut s = consistent();
    s.page_identities.push(SnapshotPageIdentity { uuid: 80, kind: PageKind::Note });
    s.tombstones.push(tombstone(80, ObjectKind::Page, Some(81)));
    assert_eq!(check(&s), Err(SnapshotError::PageTombstoneRoot));
    s.tombstones.pop();
    s.tombstones.push(tombstone(80, ObjectKind::Page, Some(80)));
    assert_eq!(check(&s), Ok(()));

    let mut s = consistent();
    s.tombstones.push(tombstone(81, ObjectKind::Block, None));
    assert_eq!(check(&s), Err(SnapshotError::BlockTombstoneRoot));
}

#[test]
fn parents_and_structure_intents_must_agree_with_the_blocks() {
    let mut s = consistent();
    s.blocks[1].parent_uuid = Some(99);
    assert_eq!(check(&s), Err(SnapshotError::MissingParent));

    let mut s = consistent();
    s.page_identities.push(SnapshotPageIdentity { uuid: 2, kind: PageKind::Note });
    s.pages.push(page(2, PageKind::Note, None));
    s.blocks.push(block(30, 2, Some(BLOCK)));
    s.structures.push(structure(30, 2, None));
    assert_eq!(check(&s), Err(SnapshotError::ParentOnOtherPage));

    let mut s = consistent();
    s.page_identities.push(SnapshotPageIdentity { uuid: 60, kind: PageKind::Handwriting });
    s.structures.push(structure(BLOCK, 60, None));
    assert_eq!(check(&s), Err(SnapshotError::StructureInHandwriting));

    let mut s = consistent();
    s.structures.push(structure(BLOCK, PAGE, None));
    assert_eq!(check(&s), Err(SnapshotError::DuplicateStructure));

    let mut s = consistent();
    s.structures.push(structure(40, PAGE, None));
    assert_eq!(check(&s), Err(SnapshotError::StructureMissingBlock));

    let mut s = consistent();
    s.structures[0].page_uuid = 3;
    assert_eq!(check(&s), Err(SnapshotError::StructurePageMismatch));

    let mut s = consistent();
    s.structures[0].hlc = "9".to_string();
    assert_eq!(check(&s), Err(SnapshotError::StructureMismatch));

    let mut s = consistent();
    s.page_identities.push(SnapshotPageIdentity { uuid: 2, kind: PageKind::Note });
    s.pages.push(page(2, PageKind::Note, None));
    s.blocks.push(block(30, 2, None));
    s.structures.push(structure(30, 2, None));
    s.structures[1].parent_uuid = Some(30);
    assert_eq!(check(&s), Err(SnapshotError::RawParentOtherPage));

    let mut s = consistent();
    s.structures[1].parent_uuid = Some(12);
    assert_eq!(check(&s), Ok(()));
    s.structures[1].parent_uuid = Some(13);
    assert_eq!(check(&s), Err(SnapshotError::RawParentUnknown));

    let mut s = consistent();
    s.structures.pop();
    assert_eq!(check(&s), Err(SnapshotError::BlockWithoutStructure));
}

#[test]
fn attachments_must_be_unique_and_owned() {
    let mut s = consistent();
    s.attachments.push(attachment(AttachmentOwner::Block(BLOCK)));
    assert_eq!(check(&s), Err(SnapshotError::DuplicateAttachment));

    let mut s = consistent();
    let mut other = attachment(AttachmentOwner::Page(PAGE));
    other.attachment_uuid = s.attachments[0].attachment_uuid;
    s.attachments.push(other);
    assert_eq!(check(&s), Err(SnapshotError::DuplicateAttachment));

    let mut s = consistent();
    s.attachments.push(attachment(AttachmentOwner::Page(99)));
    assert_eq!(check(&s), Err(SnapshotError::AttachmentOwnerUnknown));

    let mut s = consistent();
    s.attachments.push(attachment(AttachmentOwner::Block(12)));
    assert_eq!(check(&s), Ok(()));
}

#[test]
fn imports_check_format_titles_parents_and_attachment_metadata() {
    let mut s = consistent();
    s.format_version = 8;
    assert_eq!(
        validate_import(&s, &journals(&s)),
        Err(ImportError::UnsupportedFormatVersion(8))
    );
    let mut s = consistent();
    s.format_version = 6;
    assert_eq!(validate_import(&s, &journals(&s)), Ok(()));
    s.page_identities.push(SnapshotPageIdentity { uuid: 60, kind: PageKind::Handwriting });
    assert_eq!(
        validate_import(&s, &journals(&s)),
        Err(ImportError::UnsupportedFormatVersion(6))
    );

    let mut s = consistent();
    s.workspace_uuid = 0;
    assert_eq!(
        validate_import(&s, &journals(&s)),
        Err(ImportError::Inconsistent(SnapshotError::NilWorkspace))
    );

    let mut s = consistent();
    s.pages[0].title = Some("  ".to_string());
    assert_eq!(validate_import(&s, &journals(&s)), Err(ImportError::BlankTitle));

    let mut s = consistent();
    s.structures[0].parent_uuid = Some(BLOCK);
    s.blocks[0].parent_uuid = Some(BLOCK);
    assert_eq!(validate_import(&s, &journals(&s)), Err(ImportError::OwnParent));

    let mut s = consistent();
    s.attachments[0].attachment_uuid ^= 1;
    assert_eq!(validate_import(&s, &journals(&s)), Err(ImportError::AttachmentUuidMismatch));

    let mut s = consistent();
    s.attachments[0].filename = None;
    assert_eq!(validate_import(&s, &journals(&s)), Err(ImportError::MissingFilename));
    s.attachments[0].filename = Some("..".to_string());
    assert_eq!(validate_import(&s, &journals(&s)), Err(ImportError::NonPortableFilename));

    let mut s = consistent();
    s.attachments[0].mime = Some(" ".to_string());
    assert_eq!(validate_import(&s, &journals(&s)), Err(ImportError::MissingMime));

    let mut s = consistent();
    s.attachments[0].size = Some(u64::MAX);
    assert_eq!(validate_import(&s, &journals(&s)), Err(ImportError::InvalidSize));
    s.attachments[0].size = None;
    assert_eq!(validate_import(&s, &journals(&s)), Err(ImportError::InvalidSize));
    s.attachments[0].present = false;
    s.attachments[0].filename = None;
    s.attachments[0].mime = None;
    assert_eq!(validate_import(&s, &journals(&s)), Ok(()));
}

#[test]
fn an_import_keeps_open_drawings_and_foreign_state_safe() {
    let s = consistent();
    assert_eq!(
        plan_import(&s, 5, true, &[], &[]).err(),
        Some(ImportConflict::ForeignWorkspace)
    );
    let plan = plan_import(&s, 5, false, &[], &[PAGE, 7, 8]).expect("plan");
    assert!(plan.clear_import_receipts);
    assert_eq!(plan.purge_ink, vec![7, 8]);
    assert_eq!(
        plan_import(&s, WORKSPACE, true, &[7], &[]).err(),
        Some(ImportConflict::OpenHandwriting)
    );
    let plan = plan_import(&s, WORKSPACE, true, &[PAGE], &[PAGE]).expect("plan");
    assert!(!plan.clear_import_receipts);
    assert!(plan.purge_ink.is_empty());
}
