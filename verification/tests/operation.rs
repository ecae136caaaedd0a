use std::collections::HashSet;
use tangleaf::envelope::{decode_persisted_envelope, encode_persisted_envelope, EnvelopeError, PersistedEnvelope};
use tangleaf::model::{AttachmentOwner, JournalDate, ObjectKind, PageKind};
use tangleaf::operation::{
    batch_step, hlc_wins, publishes_authored_ops, replica_role, validate, validate_all,
    validate_attachment_filename, validate_kind, validate_kinds, validate_title, AttachmentAdd,
    BatchStep, BlockCreate, BlockMove, InkPublish, Op, OpKind, OperationError, Origin, PageCreate,
    PageDelete, PageSetTitle, ReplicaRole, FORMAT_VERSION, PERSISTED_ENVELOPE_VERSION,
};

fn op(kind: OpKind) -> Op {
    Op {
        op_id: 2,
        workspace_uuid: 1,
        device_id: 3,
        hlc: "0000000000001-0000-3".to_string(),
        format_version: FORMAT_VERSION,
        kind,
    }
}

fn attachment(filename: &str, mime: &str, size: u64) -> OpKind {
    OpKind::AttachmentAdd(AttachmentAdd {
        owner: AttachmentOwner::Page(7),
        blob_hash: [0xaa; 32],
        filename: filename.to_string(),
        mime: mime.to_string(),
        size,
    })
}

fn page_create(kind: PageKind, title: Option<&str>) -> OpKind {
    OpKind::PageCreate(PageCreate {
        uuid: 9,
        kind,
        title: title.map(str::to_string),
        layout: "outline".to_string(),
        created_at: 0,
    })
}

#[test]
fn attachment_filenames_must_be_portable_basenames() {
    assert_eq!(validate_attachment_filename("photo.png"), Ok(()));
    assert_eq!(validate_attachment_filename("..hidden"), Ok(()));
    for bad in ["", "   ", ".", "..", "a/b", "a\\b", "nul\0", "tab\there"] {
        assert_eq!(
            validate_attachment_filename(bad),
            Err(OperationError::NonPortableFilename),
            "{bad:?}"
        );
    }
}

#[test]
fn titles_may_be_absent_but_not_blank() {
    assert_eq!(validate_title(None), Ok(()));
    assert_eq!(validate_title(Some("Roadmap")), Ok(()));
    assert_eq!(validate_title(Some(" \t")), Err(OperationError::BlankTitle));
}

#[test]
fn payload_rules_name_the_broken_rule() {
    assert_eq!(validate_kind(&page_create(PageKind::Note, Some("Plan"))), Ok(()));
    assert_eq!(
        validate_kind(&page_create(PageKind::Note, Some(" "))),
        Err(OperationError::BlankTitle)
    );
    let date = JournalDate { year: 2026, month: 9, day: 7 };
    assert_eq!(
        validate_kind(&page_create(PageKind::Journal { date }, Some("Today"))),
        Err(OperationError::JournalTitle)
    );
    assert_eq!(validate_kind(&page_create(PageKind::Journal { date }, None)), Ok(()));
    assert_eq!(
        validate_kind(&OpKind::PageSetTitle(PageSetTitle { uuid: 1, title: Some(String::new()) })),
        Err(OperationError::BlankTitle)
    );
    let own_parent = OpKind::BlockCreate(BlockCreate {
        uuid: 5,
        page_uuid: 9,
        parent_uuid: Some(5),
        order_key: "a".to_string(),
        style: "paragraph".to_string(),
        markdown: String::new(),
        created_at: 0,
    });
    assert_eq!(validate_kind(&own_parent), Err(OperationError::OwnParent));
    let moved = OpKind::BlockMove(BlockMove {
        uuid: 5,
        page_uuid: 9,
        parent_uuid: Some(5),
        order_key: "a".to_string(),
    });
    assert_eq!(validate_kind(&moved), Err(OperationError::OwnParent));
    assert_eq!(validate_kind(&attachment("a.png", "image/png", 10)), Ok(()));
    assert_eq!(
        validate_kind(&attachment("../a.png", "image/png", 10)),
        Err(OperationError::NonPortableFilename)
    );
    assert_eq!(validate_kind(&attachment("a.png", " ", 10)), Err(OperationError::MissingMime));
    assert_eq!(
        validate_kind(&attachment("a.png", "image/png", i64::MAX as u64 + 1)),
        Err(OperationError::AttachmentTooLarge)
    );
    assert_eq!(validate_kind(&attachment("a.png", "image/png", i64::MAX as u64)), Ok(()));
    let ink = OpKind::InkPublish(InkPublish { page_uuid: 1, version_uuid: 2, well_formed: false });
    assert_eq!(validate_kind(&ink), Err(OperationError::MalformedInk));
}

#[test]
fn operations_need_a_workspace_and_a_readable_format() {
    assert_eq!(validate(&op(OpKind::PageDelete(PageDelete { uuid: 1 }))), Ok(()));
    let mut nil = op(OpKind::PageDelete(PageDelete { uuid: 1 }));
    nil.workspace_uuid = 0;
    assert_eq!(validate(&nil), Err(OperationError::NilWorkspace));
    let mut future = op(OpKind::PageDelete(PageDelete { uuid: 1 }));
    future.format_version = 8;
    assert_eq!(validate(&future), Err(OperationError::UnsupportedFormatVersion(8)));
    let mut old = op(OpKind::PageDelete(PageDelete { uuid: 1 }));
    old.format_version = 6;
    assert_eq!(validate(&old), Ok(()));
    let mut old_handwriting = op(page_create(PageKind::Handwriting, None));
    old_handwriting.format_version = 6;
    assert_eq!(
        validate(&old_handwriting),
        Err(OperationError::UnsupportedFormatVersion(6))
    );
    let mut old_ink = op(OpKind::InkPublish(InkPublish { page_uuid: 1, version_uuid: 2, well_formed: true }));
    old_ink.format_version = 6;
    assert_eq!(validate(&old_ink), Err(OperationError::UnsupportedFormatVersion(6)));
}

#[test]
fn a_batch_is_refused_for_its_first_broken_item() {
    let kinds = vec![
        page_create(PageKind::Note, Some("Fine")),
        attachment("a.png", "", 1),
        page_create(PageKind::Note, Some(" ")),
    ];
    assert_eq!(validate_kinds(&kinds), Err(OperationError::MissingMime));
    assert_eq!(validate_kinds(&kinds[..1]), Ok(()));
    let mut second = op(OpKind::PageDelete(PageDelete { uuid: 1 }));
    second.workspace_uuid = 0;
    let ops = vec![op(OpKind::PageDelete(PageDelete { uuid: 1 })), second];
    assert_eq!(validate_all(&ops), Err(OperationError::NilWorkspace));
    assert_eq!(validate_all(&ops[..1]), Ok(()));
}

#[test]
fn replica_roles_are_stored_by_name() {
    for role in [ReplicaRole::Client, ReplicaRole::Server] {
        assert_eq!(ReplicaRole::from_stored(role.as_stored()), Some(role));
    }
    assert_eq!(ReplicaRole::Server.as_stored(), "server");
    assert_eq!(ReplicaRole::from_stored("primary"), None);
    assert_eq!(replica_role(None), ReplicaRole::Client);
    assert_eq!(replica_role(Some("server")), ReplicaRole::Server);
    assert_eq!(replica_role(Some("unknown")), ReplicaRole::Client);
}

#[test]
fn servers_always_publish_and_clients_once_configured() {
    assert!(publishes_authored_ops(ReplicaRole::Server, None));
    assert!(!publishes_authored_ops(ReplicaRole::Client, None));
    assert!(!publishes_authored_ops(ReplicaRole::Client, Some("  ")));
    assert!(publishes_authored_ops(ReplicaRole::Client, Some("https://sync.example.org")));
}

#[test]
fn later_clocks_win() {
    assert!(hlc_wins(None, "1"));
    assert!(hlc_wins(Some("1"), "2"));
    assert!(!hlc_wins(Some("2"), "1"));
    assert!(!hlc_wins(Some("2"), "2"));
    assert!(hlc_wins(Some("10"), "9"));
}

#[test]
fn batches_publish_local_work_and_observe_remote_clocks() {
    assert_eq!(batch_step(Origin::Local, true, true), BatchStep::Skip);
    assert_eq!(
        batch_step(Origin::Local, true, false),
        BatchStep::Apply { publish: true, observe_clock: false }
    );
    assert_eq!(
        batch_step(Origin::Local, false, false),
        BatchStep::Apply { publish: false, observe_clock: false }
    );
    assert_eq!(
        batch_step(Origin::Remote, true, false),
        BatchStep::Apply { publish: false, observe_clock: true }
    );
}

#[test]
fn envelopes_carry_the_storage_version() {
    assert_eq!(
        encode_persisted_envelope("{\"a\":1}"),
        "{\"format_version\":2,\"payload\":{\"a\":1}}"
    );
    assert_eq!(PERSISTED_ENVELOPE_VERSION, 2);
    assert_eq!(
        decode_persisted_envelope(PersistedEnvelope::Versioned { format_version: 2, payload: 5 }),
        Ok(5)
    );
    assert_eq!(decode_persisted_envelope(PersistedEnvelope::Legacy(6)), Ok(6));
    assert_eq!(
        decode_persisted_envelope(PersistedEnvelope::Versioned { format_version: 3, payload: 5 }),
        Err(EnvelopeError::UnsupportedVersion(3))
    );
}

#[test]
fn owners_know_their_kind_and_uuid() {
    assert_eq!(AttachmentOwner::Page(4).kind(), ObjectKind::Page);
    assert_eq!(AttachmentOwner::Block(4).kind(), ObjectKind::Block);
    assert_eq!(AttachmentOwner::Block(4).uuid(), 4);
    assert!(PageKind::Journal { date: JournalDate { year: 2026, month: 1, day: 2 } }.is_journal());
    assert!(!PageKind::Note.is_journal());
}

#[test]
fn a_batch_applied_again_changes_nothing() {
    fn run(applied: &mut HashSet<u128>, outbox: &mut HashSet<u128>, ops: &[u128]) -> Vec<BatchStep> {
        let mut steps = Vec::new();
        for op in ops {
            let step = batch_step(Origin::Local, true, applied.contains(op));
            if let BatchStep::Apply { publish, .. } = step {
                applied.insert(*op);
                if publish {
                    outbox.insert(*op);
                }
            }
            steps.push(step);
        }
        steps
    }
    let mut applied = HashSet::from([1u128]);
    let mut outbox = HashSet::new();
    let first = run(&mut applied, &mut outbox, &[1, 2, 2, 3]);
    let apply = BatchStep::Apply { publish: true, observe_clock: false };
    assert_eq!(first, vec![BatchStep::Skip, apply, BatchStep::Skip, apply]);
    assert_eq!(outbox, HashSet::from([2, 3]));
    let (before_applied, before_outbox) = (applied.clone(), outbox.clone());
    let again = run(&mut applied, &mut outbox, &[1, 2, 2, 3]);
    assert_eq!(again, vec![BatchStep::Skip; 4]);
    assert_eq!((applied, outbox), (before_applied, before_outbox));
}
