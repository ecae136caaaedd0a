use tangleaf::apply::{
    block_ref_targets, check_workspace, deletion_applies, ensure_object_kind,
    ensure_page_identity, ensure_text_note_target, identity_columns, page_kind_from_stored,
    plan_attachment, plan_block_create, plan_page_create, plan_page_title, plan_set_title,
    stored_identity, tombstone_dominates, tombstone_equals, unique_candidate,
    validate_page_identity, ApplyError, AttachmentIntent, AttachmentPlan, BlockCreatePlan,
    IdentityAction, PageCreatePlan, TitlePlan,
};
use tangleaf::effects::{ApplyEffects, ApplyStats};
use tangleaf::apply::{owner_from_stored, size_from_stored, stored_size};
use tangleaf::model::{AttachmentOwner, JournalDate, ObjectKind, PageKind};
use tangleaf::refs::{content_references_changed, parse_refs, Reference, ReferenceKind};

const DATE: JournalDate = JournalDate { year: 2026, month: 9, day: 7 };

fn wiki(target: &str) -> Reference {
    Reference { kind: ReferenceKind::WikiLink, target: target.to_string() }
}

fn block_ref(target: &str) -> Reference {
    Reference { kind: ReferenceKind::BlockReference, target: target.to_string() }
}

#[test]
fn operations_apply_only_to_their_own_workspace() {
    assert_eq!(check_workspace(1, 1), Ok(()));
    assert_eq!(check_workspace(1, 2), Err(ApplyError::WorkspaceMismatch));
}

#[test]
fn a_uuid_keeps_its_object_kind() {
    assert_eq!(ensure_object_kind(ObjectKind::Page, true, false, None), Ok(()));
    assert_eq!(
        ensure_object_kind(ObjectKind::Page, false, true, None),
        Err(ApplyError::KindConflict)
    );
    assert_eq!(
        ensure_object_kind(ObjectKind::Page, false, false, Some(ObjectKind::Block)),
        Err(ApplyError::KindConflict)
    );
    assert_eq!(
        ensure_object_kind(ObjectKind::Block, false, false, Some(ObjectKind::Block)),
        Ok(())
    );
    assert_eq!(
        ensure_object_kind(ObjectKind::Block, true, false, None),
        Err(ApplyError::KindConflict)
    );
    assert_eq!(
        ensure_object_kind(ObjectKind::Block, false, false, Some(ObjectKind::Page)),
        Err(ApplyError::KindConflict)
    );
}

#[test]
fn tombstones_bury_writes_at_or_before_them() {
    assert!(tombstone_dominates(Some("5"), "5"));
    assert!(tombstone_dominates(Some("5"), "4"));
    assert!(!tombstone_dominates(Some("5"), "6"));
    assert!(!tombstone_dominates(None, "6"));
    assert!(tombstone_equals(Some("5"), "5"));
    assert!(!tombstone_equals(Some("5"), "6"));
    assert!(!tombstone_equals(None, "5"));
    assert!(deletion_applies(None, "3"));
    assert!(deletion_applies(Some("3"), "3"));
    assert!(!deletion_applies(Some("4"), "3"));
}

#[test]
fn page_identities_read_back_as_they_were_written() {
    for kind in [PageKind::Note, PageKind::Handwriting, PageKind::Journal { date: DATE }] {
        let (name, date, content) = identity_columns(kind);
        assert_eq!(stored_identity(name, date, content), Some(kind));
    }
    assert_eq!(identity_columns(PageKind::Handwriting), ("note", None, "ink"));
    assert_eq!(identity_columns(PageKind::Journal { date: DATE }), ("journal", Some(DATE), "text"));
    assert_eq!(page_kind_from_stored("note", None), Some(PageKind::Note));
    assert_eq!(page_kind_from_stored("handwriting", None), Some(PageKind::Handwriting));
    assert_eq!(page_kind_from_stored("journal", None), None);
    assert_eq!(page_kind_from_stored("note", Some(DATE)), None);
    assert_eq!(page_kind_from_stored("sketch", None), None);
}

#[test]
fn page_identities_are_reserved_once() {
    assert_eq!(validate_page_identity(5, 5, PageKind::Journal { date: DATE }), Ok(()));
    assert_eq!(
        validate_page_identity(5, 6, PageKind::Journal { date: DATE }),
        Err(ApplyError::JournalUuid)
    );
    assert_eq!(validate_page_identity(5, 6, PageKind::Note), Ok(()));
    assert_eq!(ensure_page_identity(0, 6, PageKind::Note, None), Ok(IdentityAction::Insert));
    assert_eq!(
        ensure_page_identity(0, 6, PageKind::Note, Some(PageKind::Note)),
        Ok(IdentityAction::Keep)
    );
    assert_eq!(
        ensure_page_identity(0, 6, PageKind::Note, Some(PageKind::Handwriting)),
        Err(ApplyError::PageKindConflict)
    );
}

#[test]
fn page_creations_respect_deletions_and_generations() {
    assert_eq!(plan_page_create(PageKind::Note, "3", Some("3"), None), PageCreatePlan::Buried);
    assert_eq!(
        plan_page_create(PageKind::Note, "3", None, None),
        PageCreatePlan::Create { recreated: false }
    );
    assert_eq!(
        plan_page_create(PageKind::Note, "5", Some("4"), Some("2")),
        PageCreatePlan::Create { recreated: true }
    );
    assert_eq!(
        plan_page_create(PageKind::Note, "2", None, Some("2")),
        PageCreatePlan::Create { recreated: false }
    );
    let journal = PageKind::Journal { date: DATE };
    assert_eq!(
        plan_page_create(journal, "1", None, Some("2")),
        PageCreatePlan::JournalExists { lower_floor: true }
    );
    assert_eq!(
        plan_page_create(journal, "3", None, Some("2")),
        PageCreatePlan::JournalExists { lower_floor: false }
    );
}

#[test]
fn block_creations_never_revive_a_deleted_generation() {
    assert!(matches!(plan_block_create("3", Some("4"), None, Some("1")), Ok(BlockCreatePlan::Buried)));
    match plan_block_create("3", None, Some("7"), Some("1")) {
        Ok(BlockCreatePlan::BuryUnder(clock)) => assert_eq!(clock, "7"),
        _ => panic!("a block on a deleted page is buried"),
    }
    match plan_block_create("3", None, None, Some("5")) {
        Ok(BlockCreatePlan::BuryUnder(clock)) => assert_eq!(clock, "5"),
        _ => panic!("a block from an earlier generation is buried"),
    }
    assert!(matches!(plan_block_create("5", None, None, Some("5")), Ok(BlockCreatePlan::Create)));
    assert!(matches!(plan_block_create("5", None, None, None), Err(ApplyError::PageNotFound)));
}

#[test]
fn text_targets_and_titles_follow_the_page_kind() {
    assert_eq!(ensure_text_note_target(Some(PageKind::Note)), Ok(()));
    assert_eq!(ensure_text_note_target(None), Ok(()));
    assert_eq!(
        ensure_text_note_target(Some(PageKind::Handwriting)),
        Err(ApplyError::HandwrittenTarget)
    );
    assert_eq!(plan_set_title(Some(PageKind::Note), false), Ok(true));
    assert_eq!(plan_set_title(Some(PageKind::Note), true), Ok(false));
    assert_eq!(
        plan_set_title(Some(PageKind::Journal { date: DATE }), false),
        Err(ApplyError::JournalTitle)
    );
}

#[test]
fn titles_are_unique_and_the_later_write_keeps_one() {
    assert_eq!(plan_page_title(Some("5"), "4", true, None), TitlePlan::Unchanged);
    assert_eq!(plan_page_title(Some("5"), "5", true, None), TitlePlan::Unchanged);
    assert_eq!(plan_page_title(Some("4"), "5", true, None), TitlePlan::Take { clear: None });
    assert_eq!(plan_page_title(None, "5", true, Some((9, Some("6")))), TitlePlan::Yield);
    assert_eq!(
        plan_page_title(None, "5", true, Some((9, Some("4")))),
        TitlePlan::Take { clear: Some(9) }
    );
    assert_eq!(
        plan_page_title(None, "5", true, Some((9, None))),
        TitlePlan::Take { clear: Some(9) }
    );
    assert_eq!(plan_page_title(None, "5", false, Some((9, Some("6")))), TitlePlan::Take { clear: None });
}

#[test]
fn aliases_resolve_only_to_a_single_page() {
    assert_eq!(unique_candidate(&[]), None);
    assert_eq!(unique_candidate(&[4]), Some(4));
    assert_eq!(unique_candidate(&[4, 5]), None);
    assert_eq!(block_ref_targets(2, &[1, 2, 3, 2]), vec![1, 3]);
}

#[test]
fn attachment_rows_follow_their_intent_and_owner() {
    let intent = AttachmentIntent {
        attachment_uuid: 8,
        present: true,
        filename: Some("a.png".to_string()),
        mime: Some("image/png".to_string()),
        size: Some(3),
    };
    assert_eq!(plan_attachment(None, true), AttachmentPlan::Keep);
    assert_eq!(plan_attachment(Some(&intent), true), AttachmentPlan::Upsert(8));
    assert_eq!(plan_attachment(Some(&intent), false), AttachmentPlan::Remove(8));
    let removed = AttachmentIntent { present: false, ..intent.clone() };
    assert_eq!(plan_attachment(Some(&removed), true), AttachmentPlan::Remove(8));
    let incomplete = AttachmentIntent { size: None, ..intent };
    assert_eq!(plan_attachment(Some(&incomplete), true), AttachmentPlan::Keep);
}

#[test]
fn immediate_effects_run_every_refresh_at_once() {
    let mut effects = ApplyEffects::immediate();
    assert!(effects.request_structure());
    assert!(effects.request_block_refs(1, "[[A]]".to_string(), 5));
    assert!(effects.request_page_links("a".to_string()));
    let finish = effects.finish();
    assert!(!finish.reconcile_structure);
    assert!(finish.page_links.is_empty());
    assert!(finish.block_refs.is_empty());
    assert_eq!(
        finish.stats,
        ApplyStats { structure_reconciliations: 1, reference_projections: 2 }
    );
}

#[test]
fn deferred_effects_owe_each_refresh_once() {
    let mut effects = ApplyEffects::deferred();
    assert!(!effects.request_structure());
    assert!(!effects.request_structure());
    assert!(!effects.request_block_refs(1, "old".to_string(), 5));
    assert!(!effects.request_block_refs(1, "new".to_string(), 6));
    assert!(!effects.request_block_refs(2, "gone".to_string(), 6));
    effects.discard_block_refs(2);
    assert!(!effects.request_page_links("a".to_string()));
    assert!(!effects.request_page_links("b".to_string()));
    assert!(!effects.request_page_links("a".to_string()));
    assert!(effects.mark_graph_changed(1));
    assert!(!effects.mark_graph_changed(1));
    let finish = effects.finish();
    assert!(finish.reconcile_structure);
    assert_eq!(finish.page_links, vec!["a".to_string(), "b".to_string()]);
    assert_eq!(finish.block_refs, vec![(1, "new".to_string(), 6)]);
    assert_eq!(
        finish.stats,
        ApplyStats { structure_reconciliations: 1, reference_projections: 3 }
    );
}

#[test]
fn reference_parser_deduplicates_and_validates_targets() {
    let block = "01900000-0000-7000-8000-000000000042";
    let block_uuid = 0x0190_0000_0000_7000_8000_0000_0000_0042u128;
    assert_eq!(
        parse_refs(&[wiki("Roadmap"), wiki("Roadmap"), block_ref(block), block_ref("bad")]),
        (vec!["Roadmap".to_string()], vec![block_uuid])
    );
    assert!(!content_references_changed(&[wiki("Roadmap")], &[wiki("Roadmap")]));
    assert!(content_references_changed(&[wiki("Roadmap")], &[wiki("Release")]));
}

#[test]
fn references_come_out_sorted_whatever_order_they_were_found_in() {
    let refs = [
        wiki("Visible"),
        wiki("Embedded"),
        block_ref("00000000-0000-0000-0000-000000000003"),
        block_ref("00000000-0000-0000-0000-000000000001"),
        wiki("Visible"),
    ];
    assert_eq!(
        parse_refs(&refs),
        (vec!["Embedded".to_string(), "Visible".to_string()], vec![1, 3])
    );
    let reordered = [wiki("Embedded"), block_ref("00000000-0000-0000-0000-000000000001"), wiki("Visible"),
        block_ref("00000000-0000-0000-0000-000000000003")];
    assert!(!content_references_changed(&refs, &reordered));
    assert!(content_references_changed(&refs, &reordered[..3]));
}

fn offer(current: Option<String>, incoming: &str) -> Option<String> {
    if tangleaf::operation::hlc_wins(current.as_deref(), incoming) {
        Some(incoming.to_string())
    } else {
        current
    }
}

#[test]
fn last_writer_wins_whatever_the_delivery_order() {
    for start in [None, Some("4".to_string()), Some("9".to_string())] {
        let one_way = offer(offer(start.clone(), "3"), "5");
        let other_way = offer(offer(start.clone(), "5"), "3");
        assert_eq!(one_way, other_way);
        assert_eq!(offer(offer(start.clone(), "5"), "5"), offer(start, "5"));
    }
}

fn journal_generation(existence: Option<&str>, hlc: &str) -> String {
    match plan_page_create(PageKind::Journal { date: DATE }, hlc, None, existence) {
        PageCreatePlan::JournalExists { lower_floor: false } => existence.unwrap().to_string(),
        _ => hlc.to_string(),
    }
}

#[test]
fn concurrent_journal_creations_agree_on_the_earliest() {
    for start in [None, Some("2"), Some("6")] {
        let a_then_b = journal_generation(Some(&journal_generation(start, "3")), "5");
        let b_then_a = journal_generation(Some(&journal_generation(start, "5")), "3");
        assert_eq!(a_then_b, b_then_a);
    }
    assert_eq!(journal_generation(Some(&journal_generation(None, "5")), "3"), "3");
}

#[test]
fn attachment_rows_read_back_as_written() {
    for owner in [AttachmentOwner::Page(3), AttachmentOwner::Block(3)] {
        assert_eq!(owner_from_stored(owner.kind(), owner.uuid()), owner);
    }
    for size in [0u64, 12, i64::MAX as u64] {
        assert_eq!(size_from_stored(stored_size(Some(size))), Some(size));
    }
    assert_eq!(stored_size(Some(u64::MAX)), None);
    assert_eq!(size_from_stored(Some(-1)), None);
    assert_eq!(size_from_stored(None), None);
}

#[test]
fn a_replayed_operation_has_no_outcome() {
    let outcome = tangleaf::operation::ApplyOutcome::default();
    assert!(!outcome.applied);
    assert!(outcome.affected_uuids.is_empty());
    assert!(!outcome.graph_changed);
}

#[test]
fn deferred_effects_come_out_in_key_order() {
    let mut effects = ApplyEffects::deferred();
    assert!(!effects.request_page_links("zeta".to_string()));
    assert!(!effects.request_page_links("alpha".to_string()));
    assert!(!effects.request_page_links("mid".to_string()));
    assert!(!effects.request_block_refs(9, "nine".to_string(), 1));
    assert!(!effects.request_block_refs(4, "four".to_string(), 2));
    let finish = effects.finish();
    assert_eq!(
        finish.page_links,
        vec!["alpha".to_string(), "mid".to_string(), "zeta".to_string()]
    );
    assert_eq!(
        finish.block_refs,
        vec![(4, "four".to_string(), 2), (9, "nine".to_string(), 1)]
    );
}
