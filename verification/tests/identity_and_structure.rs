use std::collections::{HashMap, HashSet};
use tangleaf::identity::attachment_uuid;
use tangleaf::refs::{parse_refs, Reference, ReferenceKind};
use tangleaf::model::AttachmentOwner;
use tangleaf::structure::{
    break_structure_cycles, placement_is_current, placements_to_write, plan_structure, StructureIntent,
    StructureRow,
};

fn intent(page: u128, parent: Option<u128>, hlc: &str) -> StructureIntent {
    StructureIntent {
        page_uuid: page,
        parent_uuid: parent,
        order_key: "a0".to_string(),
        hlc: hlc.to_string(),
    }
}

fn row(page: u128, existence: &str) -> StructureRow {
    StructureRow {
        existence_hlc: existence.to_string(),
        page_uuid: page,
        parent_uuid: None,
        order_key: "a0".to_string(),
        structure_hlc: None,
        updated_at: 0,
    }
}

#[test]
fn cycle_break_is_deterministic() {
    let first = 1u128;
    let second = 2u128;
    let page = 3u128;
    let mut intents = HashMap::from([
        (first, intent(page, Some(second), "1")),
        (second, intent(page, Some(first), "2")),
    ]);
    break_structure_cycles(&mut intents);
    assert_eq!(intents[&first].parent_uuid, Some(second));
    assert_eq!(intents[&second].parent_uuid, None);
}

#[test]
fn an_acyclic_structure_is_left_alone() {
    let mut intents = HashMap::from([
        (1u128, intent(9, None, "1")),
        (2u128, intent(9, Some(1), "2")),
        (3u128, intent(9, Some(2), "3")),
    ]);
    break_structure_cycles(&mut intents);
    assert_eq!(intents[&1].parent_uuid, None);
    assert_eq!(intents[&2].parent_uuid, Some(1));
    assert_eq!(intents[&3].parent_uuid, Some(2));
}

#[test]
fn a_longer_cycle_loses_only_its_latest_link() {
    let mut intents = HashMap::from([
        (1u128, intent(9, Some(3), "5")),
        (2u128, intent(9, Some(1), "7")),
        (3u128, intent(9, Some(2), "6")),
        (4u128, intent(9, Some(3), "9")),
    ]);
    break_structure_cycles(&mut intents);
    assert_eq!(intents[&1].parent_uuid, Some(3));
    assert_eq!(intents[&2].parent_uuid, None);
    assert_eq!(intents[&3].parent_uuid, Some(2));
    assert_eq!(intents[&4].parent_uuid, Some(3));
}

#[test]
fn planned_structure_drops_invalid_parents_and_missing_pages() {
    let rows = HashMap::from([
        (1u128, row(9, "1")),
        (2u128, row(9, "1")),
        (3u128, row(8, "1")),
        (4u128, row(9, "5")),
        (5u128, row(9, "1")),
    ]);
    let pages = HashSet::from([9u128]);
    let intents = HashMap::from([
        (1u128, intent(9, None, "2")),
        (2u128, intent(9, Some(1), "2")),
        (3u128, intent(8, None, "2")),
        (5u128, intent(9, Some(4), "2")),
        (4u128, intent(9, None, "5")),
        (6u128, intent(9, None, "2")),
    ]);
    let planned = plan_structure(&rows, &pages, &intents);
    assert_eq!(planned.len(), 4);
    assert_eq!(planned[&2].parent_uuid, Some(1));
    assert!(!planned.contains_key(&3));
    assert!(!planned.contains_key(&6));
    assert_eq!(planned[&5].parent_uuid, None);
}

#[test]
fn a_row_that_says_what_its_plan_says_is_current() {
    let planned = intent(9, Some(1), "4");
    let mut current = row(9, "1");
    current.parent_uuid = Some(1);
    current.structure_hlc = Some("4".to_string());
    current.updated_at = 10;
    assert!(placement_is_current(&current, &planned, 10));
    assert!(!placement_is_current(&current, &planned, 11));
    current.structure_hlc = Some("3".to_string());
    assert!(!placement_is_current(&current, &planned, 10));
}

#[test]
fn attachment_identity_preserves_existing_notes_rs_data() {
    let hash = [0xaau8; 32];
    assert_eq!(
        attachment_uuid(AttachmentOwner::Page(0), &hash),
        0x0ce031d5_b27c_5ea6_b2cc_db92829fd6ecu128
    );
}

#[test]
fn attachment_identity_includes_the_typed_owner_kind() {
    let uuid = 0x0190_0000_0000_7000_8000_0000_0000_0042u128;
    let hash = [0xaau8; 32];
    let page_attachment = attachment_uuid(AttachmentOwner::Page(uuid), &hash);
    assert_eq!(page_attachment, attachment_uuid(AttachmentOwner::Page(uuid), &hash));
    assert_eq!((page_attachment >> 76) & 0xf, 5);
    assert_ne!(page_attachment, attachment_uuid(AttachmentOwner::Block(uuid), &hash));
}

#[test]
fn block_references_accept_the_usual_uuid_forms() {
    let block = |target: &str| Reference {
        kind: ReferenceKind::BlockReference,
        target: target.to_string(),
    };
    let (_, blocks) = parse_refs(&[
        block("00000000-0000-0000-0000-000000000001"),
        block("00000000000000000000000000000010"),
        block("bad"),
    ]);
    assert_eq!(blocks, vec![1, 16]);
}

#[test]
fn breaking_cycles_twice_is_breaking_them_once() {
    let mut intents = HashMap::from([
        (1u128, intent(9, Some(2), "1")),
        (2u128, intent(9, Some(1), "2")),
        (3u128, intent(9, Some(1), "3")),
    ]);
    break_structure_cycles(&mut intents);
    let once: Vec<Option<u128>> = (1..=3u128).map(|k| intents[&k].parent_uuid).collect();
    break_structure_cycles(&mut intents);
    let twice: Vec<Option<u128>> = (1..=3u128).map(|k| intents[&k].parent_uuid).collect();
    assert_eq!(once, twice);
    assert_eq!(once, vec![Some(2), None, Some(1)]);
}

#[test]
fn appending_a_block_rewrites_only_rows_that_changed() {
    let mut rows = HashMap::new();
    let mut planned = Vec::new();
    for block in 1..=200u128 {
        let mut stored = row(9, "1");
        stored.structure_hlc = Some("4".to_string());
        stored.updated_at = 10;
        rows.insert(block, stored);
        planned.push((block, intent(9, None, "4"), 10));
    }
    rows.insert(201, row(9, "5"));
    planned.push((201, intent(9, Some(200), "5"), 12));
    let due = placements_to_write(&rows, &planned);
    assert_eq!(due.len(), 1);
    assert_eq!(due[0].0, 201);
    assert_eq!(due[0].1.parent_uuid, Some(200));
}
