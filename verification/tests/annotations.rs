use std::collections::{BTreeMap, BTreeSet};

use lib::annotations::{
    change_anchors, comment_references, highlight_anchors, Anchor, ChangeKind, DELETION_TABLE,
    HIGHLIGHT_TABLE, INSERTION_TABLE, OVERLAPPING_HIGHLIGHT_TABLE, TYPE_HIGHLIGHT, TYPE_STORAGE,
};
use lib::pb::{Field, Message, Value};

fn message(fields: Vec<(u32, Value)>) -> Message {
    Message {
        fields: fields
            .into_iter()
            .map(|(number, value)| Field { number, value })
            .collect(),
    }
}

fn reference_bytes(identifier: u64) -> Value {
    Value::Bytes(message(vec![(1, Value::Varint(identifier))]).encode())
}

#[test]
fn a_change_kind_has_no_zero() {
    assert_eq!(
        ChangeKind::from_varint(Some(1)),
        ChangeKind::Insertion,
        "1 is an insertion"
    );
    assert_eq!(ChangeKind::from_varint(Some(2)), ChangeKind::Deletion);
    // The point of the enum: a missing kind is not the first variant.
    assert_eq!(ChangeKind::from_varint(None), ChangeKind::Unknown(0));
    assert_eq!(ChangeKind::from_varint(Some(0)), ChangeKind::Unknown(0));
    assert_eq!(ChangeKind::from_varint(Some(7)), ChangeKind::Unknown(7));
}

/// `table_highlight` is a run table: `{index, reference}`, no length. The
/// reference is to a `TSWP.HighlightArchive`, and *that* points at the
/// comment — two hops, and a decoder that takes one lands on the wrong
/// object.
#[test]
fn a_run_highlight_reaches_the_comment_through_the_highlight() {
    let mut archives: BTreeMap<u64, (u32, String, Message)> = BTreeMap::new();
    archives.insert(
        700,
        (
            TYPE_HIGHLIGHT,
            "Index/Document.iwa".into(),
            message(vec![(1, reference_bytes(900))]),
        ),
    );
    let entry = message(vec![(1, Value::Varint(12)), (2, reference_bytes(700))]);
    // The table wraps its entries in repeated field 1.
    let table = message(vec![
        (1, Value::Bytes(entry.encode())),
        (
            1,
            Value::Bytes(message(vec![(1, Value::Varint(20))]).encode()),
        ),
    ]);
    let storage = message(vec![(HIGHLIGHT_TABLE, Value::Bytes(table.encode()))]);

    let mut reached: BTreeSet<u64> = Default::default();
    let found = highlight_anchors(&storage, HIGHLIGHT_TABLE, 5, &archives, &mut reached);
    assert!(reached.contains(&700), "the highlight was walked through");
    assert_eq!(found.len(), 1);
    assert_eq!(found[0].0, 900, "the comment, not the highlight");
    assert_eq!(
        found[0].1,
        Anchor::Text {
            storage: 5,
            table: HIGHLIGHT_TABLE,
            start: 12,
            length: None,
        }
    );
}

/// `table_overlapping_highlight` carries an explicit range, which is how
/// two comments cover the same characters.
#[test]
fn an_overlapping_highlight_carries_its_own_length() {
    let archives = BTreeMap::new();
    let range = message(vec![(1, Value::Varint(12)), (2, Value::Varint(9))]);
    let entry = message(vec![
        (1, Value::Varint(12)),
        (2, reference_bytes(900)),
        (3, Value::Bytes(range.encode())),
    ]);
    let table = message(vec![(1, Value::Bytes(entry.encode()))]);
    let storage = message(vec![(
        OVERLAPPING_HIGHLIGHT_TABLE,
        Value::Bytes(table.encode()),
    )]);

    let found = highlight_anchors(
        &storage,
        OVERLAPPING_HIGHLIGHT_TABLE,
        5,
        &archives,
        &mut Default::default(),
    );
    assert_eq!(
        found[0].1,
        Anchor::Text {
            storage: 5,
            table: OVERLAPPING_HIGHLIGHT_TABLE,
            start: 12,
            length: Some(9),
        }
    );
    assert_eq!(
        found[0].1.as_str(),
        "storage 5 12..21 (table_overlapping_highlight)"
    );
}

/// A comment on an image is field 6 of the drawable archive, and the
/// drawable archive is one level inside a `TSD.ImageArchive`.
#[test]
fn an_object_comment_is_found_inside_the_archive_that_carries_it() {
    let drawable = message(vec![
        (lib::drawable::field::GEOMETRY, Value::Bytes(Vec::new())),
        (lib::drawable::field::COMMENT, reference_bytes(901)),
    ]);
    let image = message(vec![(1, Value::Bytes(drawable.encode()))]);
    assert_eq!(comment_references(&image), vec![901]);
}

fn change_table(entries: &[(u64, u64)]) -> Value {
    let rows = entries
        .iter()
        .map(|(character, change)| {
            (
                1,
                Value::Bytes(
                    message(vec![(1, Value::Varint(*character)), (2, reference_bytes(*change))])
                        .encode(),
                ),
            )
        })
        .collect();
    Value::Bytes(message(rows).encode())
}

/// Every change a storage's insertion or deletion table names is placed at
/// its storage, table and character; storages are read in identifier order
/// and the later entry for one change wins.
#[test]
fn changes_are_anchored_in_their_storage() {
    let mut archives: BTreeMap<u64, (u32, String, Message)> = BTreeMap::new();
    archives.insert(
        40,
        (
            TYPE_STORAGE,
            "Index/Document.iwa".into(),
            message(vec![
                (INSERTION_TABLE, change_table(&[(5, 70), (8, 72)])),
                (DELETION_TABLE, change_table(&[(9, 71)])),
            ]),
        ),
    );
    archives.insert(
        30,
        (
            TYPE_STORAGE,
            "Index/Document.iwa".into(),
            message(vec![(DELETION_TABLE, change_table(&[(2, 72)]))]),
        ),
    );
    archives.insert(
        50,
        (
            3056,
            "Index/Document.iwa".into(),
            message(vec![(INSERTION_TABLE, change_table(&[(1, 70)]))]),
        ),
    );
    let anchors = change_anchors(&archives);
    assert_eq!(anchors.len(), 3);
    assert_eq!(anchors[&70], (40, INSERTION_TABLE, 5));
    assert_eq!(anchors[&71], (40, DELETION_TABLE, 9));
    // Storage 30 is read first, so storage 40's entry is the one that stays.
    assert_eq!(anchors[&72], (40, INSERTION_TABLE, 8));
}

use lib::annotations::date;

#[test]
fn a_date_is_a_double_in_a_submessage() {
    let inner = message(vec![(1, Value::Fixed64(768_000_000f64.to_le_bytes()))]);
    let outer = message(vec![(2, Value::Bytes(inner.encode()))]);
    assert_eq!(date(&outer, 2).map(f64::from_le_bytes), Some(768_000_000.0));
    assert_eq!(date(&outer, 3), None);
}
