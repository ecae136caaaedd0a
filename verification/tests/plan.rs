use tangleaf::apply::{ApplyError, AttachmentIntent};
use tangleaf::identity::attachment_uuid;
use tangleaf::model::{AttachmentOwner, JournalDate, ObjectKind, PageKind};
use tangleaf::operation::{
    AttachmentAdd, AttachmentRemove, BlockCreate, BlockDelete, BlockMove, BlockSetMarkdown,
    BlockSetStyle, InkPublish, Op, OpKind, PageAliasSet, PageCreate, PageDelete, PageSetLayout,
    PageSetTitle, FORMAT_VERSION,
};
use tangleaf::plan::{plan_apply, ApplyFacts, BlockRow, ObjectFacts, PageRow, Write};

const WORKSPACE: u128 = 1;
const PAGE: u128 = 10;
const BLOCK: u128 = 20;

fn op(hlc: &str, kind: OpKind) -> Op {
    Op {
        op_id: 2,
        workspace_uuid: WORKSPACE,
        device_id: 3,
        hlc: hlc.to_string(),
        format_version: FORMAT_VERSION,
        kind,
    }
}

fn nothing(uuid: u128) -> ObjectFacts {
    ObjectFacts {
        uuid,
        identity: None,
        tombstone: None,
        page: None,
        block: None,
        structure_hlc: None,
    }
}

fn page(uuid: u128, existence: &str) -> ObjectFacts {
    ObjectFacts {
        identity: Some(PageKind::Note),
        page: Some(PageRow {
            existence_hlc: existence.to_string(),
            title_hlc: None,
            layout_hlc: None,
            normalized_title: None,
        }),
        ..nothing(uuid)
    }
}

fn block(uuid: u128, existence: &str, markdown: Option<&str>) -> ObjectFacts {
    ObjectFacts {
        block: Some(BlockRow {
            existence_hlc: existence.to_string(),
            markdown_hlc: markdown.map(str::to_string),
            style_hlc: None,
        }),
        ..nothing(uuid)
    }
}

fn facts(subject: ObjectFacts) -> ApplyFacts {
    ApplyFacts {
        replica_workspace: WORKSPACE,
        journal_uuid: 99,
        subject,
        page: nothing(PAGE),
        parent: None,
        normalized_title: None,
        title_holder: None,
        explicit_aliases: Vec::new(),
        reference_aliases: Vec::new(),
        page_blocks: Vec::new(),
        alias_hlc: None,
        attachment: None,
        references_changed: false,
    }
}

fn markdown(hlc: &str) -> Op {
    op(
        hlc,
        OpKind::BlockSetMarkdown(BlockSetMarkdown { uuid: BLOCK, markdown: "text".to_string() }),
    )
}

fn block_create(hlc: &str) -> Op {
    op(
        hlc,
        OpKind::BlockCreate(BlockCreate {
            uuid: BLOCK,
            page_uuid: PAGE,
            parent_uuid: None,
            order_key: "a".to_string(),
            style: "paragraph".to_string(),
            markdown: "hello".to_string(),
            created_at: 0,
        }),
    )
}

#[test]
fn an_operation_of_another_workspace_is_refused() {
    let mut other = markdown("5");
    other.workspace_uuid = 2;
    let plan = plan_apply(&other, &facts(block(BLOCK, "1", None)));
    assert_eq!(plan.err(), Some(ApplyError::WorkspaceMismatch));
}

#[test]
fn a_later_markdown_change_is_written_and_asks_for_references() {
    let mut f = facts(block(BLOCK, "1", Some("3")));
    f.references_changed = true;
    let plan = plan_apply(&markdown("5"), &f).unwrap();
    assert_eq!(
        plan.writes,
        vec![
            Write::MarkGraphChanged { block: BLOCK },
            Write::SetMarkdown { block: BLOCK },
            Write::RequestBlockRefs { block: BLOCK },
        ]
    );
    assert_eq!(plan.affected, vec![BLOCK]);
}

#[test]
fn an_earlier_markdown_change_writes_nothing() {
    let plan = plan_apply(&markdown("2"), &facts(block(BLOCK, "1", Some("3")))).unwrap();
    assert!(plan.writes.is_empty());
    assert_eq!(plan.affected, vec![BLOCK]);
}

#[test]
fn markdown_converges_whatever_the_delivery_order() {
    // The block's Markdown clock after one change, by what the plan writes.
    fn after(current: Option<&str>, hlc: &str) -> Option<String> {
        let plan = plan_apply(&markdown(hlc), &facts(block(BLOCK, "1", current))).unwrap();
        if plan.writes.contains(&Write::SetMarkdown { block: BLOCK }) {
            Some(hlc.to_string())
        } else {
            current.map(str::to_string)
        }
    }
    let ab = after(after(Some("2"), "4").as_deref(), "7");
    let ba = after(after(Some("2"), "7").as_deref(), "4");
    assert_eq!(ab, Some("7".to_string()));
    assert_eq!(ab, ba);
    assert_eq!(after(Some("7"), "7"), Some("7".to_string()));
}

#[test]
fn a_page_uuid_cannot_take_a_block_operation() {
    let plan = plan_apply(&markdown("5"), &facts(page(BLOCK, "1")));
    assert_eq!(plan.err(), Some(ApplyError::KindConflict));
}

#[test]
fn a_markdown_change_on_a_deleted_block_writes_nothing() {
    let mut subject = block(BLOCK, "1", None);
    subject.tombstone = Some((ObjectKind::Block, "9".to_string()));
    let plan = plan_apply(&markdown("5"), &facts(subject)).unwrap();
    assert!(plan.writes.is_empty());
}

#[test]
fn a_block_needs_its_page() {
    let plan = plan_apply(&block_create("5"), &facts(nothing(BLOCK)));
    assert_eq!(plan.err(), Some(ApplyError::PageNotFound));
}

#[test]
fn a_new_block_is_created_with_its_fields() {
    let mut f = facts(nothing(BLOCK));
    f.page = page(PAGE, "1");
    let plan = plan_apply(&block_create("5"), &f).unwrap();
    assert_eq!(
        plan.writes,
        vec![
            Write::PutBlock { block: BLOCK },
            Write::StructureIntent { block: BLOCK },
            Write::SetMarkdown { block: BLOCK },
            Write::RequestBlockRefs { block: BLOCK },
            Write::SetStyle { block: BLOCK },
            Write::RequestStructure,
            Write::ReconcileAttachments { owner: AttachmentOwner::Block(BLOCK) },
        ]
    );
    assert_eq!(plan.affected, vec![BLOCK, PAGE]);
}

#[test]
fn a_block_of_an_earlier_page_generation_is_buried_at_the_page_clock() {
    let mut f = facts(nothing(BLOCK));
    f.page = page(PAGE, "6");
    let plan = plan_apply(&block_create("5"), &f).unwrap();
    assert_eq!(
        plan.writes,
        vec![Write::Tombstone {
            uuid: BLOCK,
            kind: ObjectKind::Block,
            root: Some(PAGE),
            hlc: "6".to_string(),
        }]
    );
}

#[test]
fn a_block_on_a_deleted_page_is_buried_at_the_page_deletion() {
    let mut f = facts(nothing(BLOCK));
    f.page.tombstone = Some((ObjectKind::Page, "4".to_string()));
    let plan = plan_apply(&block_create("5"), &f).unwrap();
    assert_eq!(
        plan.writes,
        vec![Write::Tombstone {
            uuid: BLOCK,
            kind: ObjectKind::Block,
            root: Some(PAGE),
            hlc: "4".to_string(),
        }]
    );
}

#[test]
fn handwritten_pages_take_no_text_blocks() {
    let mut f = facts(nothing(BLOCK));
    f.page.identity = Some(PageKind::Handwriting);
    assert_eq!(plan_apply(&block_create("5"), &f).err(), Some(ApplyError::HandwrittenTarget));
    let layout = op("5", OpKind::PageSetLayout(PageSetLayout { uuid: PAGE, layout: "x".to_string() }));
    let mut g = facts(page(PAGE, "1"));
    g.subject.identity = Some(PageKind::Handwriting);
    assert_eq!(plan_apply(&layout, &g).err(), Some(ApplyError::HandwrittenTarget));
}

#[test]
fn a_new_page_reserves_its_identity_and_is_created() {
    let create = op(
        "5",
        OpKind::PageCreate(PageCreate {
            uuid: PAGE,
            kind: PageKind::Note,
            title: None,
            layout: "outline".to_string(),
            created_at: 0,
        }),
    );
    let mut f = facts(nothing(PAGE));
    f.explicit_aliases = vec!["inbox".to_string()];
    let plan = plan_apply(&create, &f).unwrap();
    assert_eq!(
        plan.writes,
        vec![
            Write::ReserveIdentity { page: PAGE, kind: PageKind::Note },
            Write::PromoteBlockTombstones { page: PAGE },
            Write::PutPage { page: PAGE },
            Write::MaterializeKind { page: PAGE, kind: PageKind::Note },
            Write::SetTitle { page: PAGE },
            Write::RequestPageLinks { alias: "inbox".to_string() },
            Write::SetLayout { page: PAGE },
            Write::RequestStructure,
            Write::ReconcileAttachments { owner: AttachmentOwner::Page(PAGE) },
        ]
    );
    assert_eq!(plan.affected, vec![PAGE]);
}

#[test]
fn recreating_a_page_buries_the_blocks_of_its_earlier_generation() {
    let create = op(
        "5",
        OpKind::PageCreate(PageCreate {
            uuid: PAGE,
            kind: PageKind::Note,
            title: None,
            layout: "outline".to_string(),
            created_at: 0,
        }),
    );
    let mut f = facts(page(PAGE, "3"));
    f.page_blocks = vec![(21, "2".to_string()), (22, "6".to_string())];
    let plan = plan_apply(&create, &f).unwrap();
    assert_eq!(
        plan.writes[..4].to_vec(),
        vec![
            Write::DiscardBlockRefs { block: 21 },
            Write::Tombstone {
                uuid: 21,
                kind: ObjectKind::Block,
                root: Some(PAGE),
                hlc: "5".to_string(),
            },
            Write::DeleteStructureIntent { block: 21 },
            Write::DeleteBlock { block: 21 },
        ]
    );
    assert_eq!(plan.writes[4], Write::PromoteBlockTombstones { page: PAGE });
    assert_eq!(plan.writes[5], Write::PutPage { page: PAGE });
    assert_eq!(plan.affected, vec![PAGE, 21]);
}

#[test]
fn a_buried_page_creation_only_reserves_its_identity() {
    let create = op(
        "5",
        OpKind::PageCreate(PageCreate {
            uuid: PAGE,
            kind: PageKind::Note,
            title: None,
            layout: "outline".to_string(),
            created_at: 0,
        }),
    );
    let mut subject = nothing(PAGE);
    subject.tombstone = Some((ObjectKind::Page, "7".to_string()));
    let plan = plan_apply(&create, &facts(subject)).unwrap();
    assert_eq!(plan.writes, vec![Write::ReserveIdentity { page: PAGE, kind: PageKind::Note }]);
}

#[test]
fn a_journal_page_must_use_its_own_uuid_and_lowers_its_floor() {
    let date = JournalDate { year: 2026, month: 9, day: 7 };
    let journal = |uuid| {
        op(
            "2",
            OpKind::PageCreate(PageCreate {
                uuid,
                kind: PageKind::Journal { date },
                title: None,
                layout: "outline".to_string(),
                created_at: 0,
            }),
        )
    };
    assert_eq!(plan_apply(&journal(PAGE), &facts(nothing(PAGE))).err(), Some(ApplyError::JournalUuid));
    let mut subject = page(99, "4");
    subject.identity = Some(PageKind::Journal { date });
    let plan = plan_apply(&journal(99), &facts(subject)).unwrap();
    assert_eq!(plan.writes, vec![Write::LowerJournalFloor { page: 99, floor: "4".to_string() }]);
}

#[test]
fn deleting_a_page_buries_its_blocks_and_refreshes_its_links() {
    let delete = op("5", OpKind::PageDelete(PageDelete { uuid: PAGE }));
    let mut f = facts(page(PAGE, "1"));
    f.page_blocks = vec![(21, "2".to_string())];
    f.reference_aliases = vec!["inbox".to_string()];
    let plan = plan_apply(&delete, &f).unwrap();
    let tomb = |uuid, kind| Write::Tombstone {
        uuid,
        kind,
        root: Some(PAGE),
        hlc: "5".to_string(),
    };
    assert_eq!(
        plan.writes,
        vec![
            tomb(PAGE, ObjectKind::Page),
            tomb(21, ObjectKind::Block),
            Write::DeleteStructureIntent { block: 21 },
            Write::DiscardBlockRefs { block: 21 },
            Write::DeletePage { page: PAGE },
            Write::PurgeInk { page: PAGE },
            Write::RequestPageLinks { alias: "inbox".to_string() },
        ]
    );
    assert_eq!(plan.affected, vec![PAGE, 21]);
}

#[test]
fn an_earlier_page_deletion_than_its_generation_writes_nothing() {
    let delete = op("2", OpKind::PageDelete(PageDelete { uuid: PAGE }));
    let plan = plan_apply(&delete, &facts(page(PAGE, "3"))).unwrap();
    assert!(plan.writes.is_empty());
}

#[test]
fn deleting_a_block_removes_its_row_and_placement() {
    let delete = op("5", OpKind::BlockDelete(BlockDelete { uuid: BLOCK, page_uuid: PAGE }));
    let plan = plan_apply(&delete, &facts(block(BLOCK, "1", None))).unwrap();
    assert_eq!(
        plan.writes,
        vec![
            Write::Tombstone {
                uuid: BLOCK,
                kind: ObjectKind::Block,
                root: Some(PAGE),
                hlc: "5".to_string(),
            },
            Write::DiscardBlockRefs { block: BLOCK },
            Write::DeleteStructureIntent { block: BLOCK },
            Write::DeleteBlock { block: BLOCK },
            Write::RequestStructure,
        ]
    );
    let mut later = block(BLOCK, "1", None);
    later.tombstone = Some((ObjectKind::Block, "8".to_string()));
    let plan = plan_apply(&delete, &facts(later)).unwrap();
    assert_eq!(plan.writes.len(), 1);
    assert_eq!(plan.affected, vec![BLOCK]);
}

#[test]
fn titles_aliases_layouts_styles_and_moves_follow_their_clocks() {
    let title = op(
        "5",
        OpKind::PageSetTitle(PageSetTitle { uuid: PAGE, title: Some("Inbox".to_string()) }),
    );
    let mut f = facts(page(PAGE, "1"));
    f.normalized_title = Some("inbox".to_string());
    let plan = plan_apply(&title, &f).unwrap();
    assert_eq!(
        plan.writes,
        vec![
            Write::SetTitle { page: PAGE },
            Write::RequestPageLinks { alias: "inbox".to_string() },
        ]
    );

    let alias = op(
        "5",
        OpKind::PageAliasSet(PageAliasSet { uuid: PAGE, alias: "box".to_string(), present: true }),
    );
    let mut f = facts(page(PAGE, "1"));
    assert_eq!(
        plan_apply(&alias, &f).unwrap().writes,
        vec![Write::AliasIntent, Write::RequestPageLinks { alias: "box".to_string() }]
    );
    f.alias_hlc = Some("6".to_string());
    assert!(plan_apply(&alias, &f).unwrap().writes.is_empty());
    assert_eq!(
        plan_apply(&alias, &facts(nothing(PAGE))).err(),
        Some(ApplyError::PageNotFound)
    );

    let style = op("5", OpKind::BlockSetStyle(BlockSetStyle { uuid: BLOCK, style: "h1".to_string() }));
    assert_eq!(
        plan_apply(&style, &facts(block(BLOCK, "1", None))).unwrap().writes,
        vec![Write::SetStyle { block: BLOCK }]
    );

    let moved = op(
        "5",
        OpKind::BlockMove(BlockMove {
            uuid: BLOCK,
            page_uuid: PAGE,
            parent_uuid: None,
            order_key: "b".to_string(),
        }),
    );
    let mut g = facts(block(BLOCK, "1", None));
    g.subject.structure_hlc = Some("7".to_string());
    assert_eq!(
        plan_apply(&moved, &g).unwrap().writes,
        vec![Write::RequestStructure, Write::TouchBlock { block: BLOCK }]
    );
}

#[test]
fn journal_titles_cannot_be_set() {
    let title = op("5", OpKind::PageSetTitle(PageSetTitle { uuid: PAGE, title: None }));
    let mut subject = page(PAGE, "1");
    subject.identity = Some(PageKind::Journal { date: JournalDate { year: 2026, month: 1, day: 2 } });
    assert_eq!(plan_apply(&title, &facts(subject)).err(), Some(ApplyError::JournalTitle));
}

#[test]
fn attachments_write_their_intent_and_row() {
    let hash = [0xaau8; 32];
    let add = op(
        "5",
        OpKind::AttachmentAdd(AttachmentAdd {
            owner: AttachmentOwner::Page(PAGE),
            blob_hash: hash,
            filename: "a.png".to_string(),
            mime: "image/png".to_string(),
            size: 12,
        }),
    );
    let uuid = attachment_uuid(AttachmentOwner::Page(PAGE), &hash);
    let plan = plan_apply(&add, &facts(page(PAGE, "1"))).unwrap();
    assert_eq!(
        plan.writes,
        vec![
            Write::AttachmentIntent,
            Write::UpsertAttachmentRow {
                uuid,
                filename: "a.png".to_string(),
                mime: "image/png".to_string(),
                size: 12,
            },
        ]
    );
    assert_eq!(plan.affected, vec![PAGE, uuid]);

    let remove = op(
        "4",
        OpKind::AttachmentRemove(AttachmentRemove { owner: AttachmentOwner::Page(PAGE), blob_hash: hash }),
    );
    let mut f = facts(page(PAGE, "1"));
    f.attachment = Some((
        AttachmentIntent {
            attachment_uuid: uuid,
            present: true,
            filename: Some("a.png".to_string()),
            mime: Some("image/png".to_string()),
            size: Some(12),
        },
        "5".to_string(),
    ));
    let plan = plan_apply(&remove, &f).unwrap();
    assert_eq!(
        plan.writes,
        vec![Write::UpsertAttachmentRow {
            uuid,
            filename: "a.png".to_string(),
            mime: "image/png".to_string(),
            size: 12,
        }]
    );
}

#[test]
fn a_handwriting_publication_names_its_page() {
    let publication = InkPublish { page_uuid: PAGE, version_uuid: 5, well_formed: true };
    let plan = plan_apply(&op("5", OpKind::InkPublish(publication)), &facts(nothing(PAGE))).unwrap();
    assert_eq!(plan.writes, vec![Write::ApplyInkVersion { publication }]);
    assert_eq!(plan.affected, vec![PAGE]);
}

#[test]
fn a_title_goes_to_the_later_write() {
    let title = op(
        "5",
        OpKind::PageSetTitle(PageSetTitle { uuid: PAGE, title: Some("Inbox".to_string()) }),
    );
    let mut f = facts(page(PAGE, "1"));
    f.normalized_title = Some("inbox".to_string());
    f.title_holder = Some((11, Some("3".to_string())));
    assert_eq!(
        plan_apply(&title, &f).unwrap().writes,
        vec![
            Write::ClearTitle { page: 11 },
            Write::SetTitle { page: PAGE },
            Write::RequestPageLinks { alias: "inbox".to_string() },
        ]
    );
    f.title_holder = Some((11, Some("8".to_string())));
    assert_eq!(
        plan_apply(&title, &f).unwrap().writes,
        vec![
            Write::YieldTitle { page: PAGE },
            Write::RequestPageLinks { alias: "inbox".to_string() },
        ]
    );
}

#[test]
fn a_title_change_refreshes_both_titles_in_text_order() {
    let title = op(
        "5",
        OpKind::PageSetTitle(PageSetTitle { uuid: PAGE, title: Some("Alpha".to_string()) }),
    );
    let mut subject = page(PAGE, "1");
    if let Some(row) = subject.page.as_mut() {
        row.normalized_title = Some("zeta".to_string());
        row.title_hlc = Some("2".to_string());
    }
    let mut f = facts(subject);
    f.normalized_title = Some("alpha".to_string());
    assert_eq!(
        plan_apply(&title, &f).unwrap().writes,
        vec![
            Write::SetTitle { page: PAGE },
            Write::RequestPageLinks { alias: "alpha".to_string() },
            Write::RequestPageLinks { alias: "zeta".to_string() },
        ]
    );
}
