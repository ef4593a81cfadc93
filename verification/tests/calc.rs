use std::collections::BTreeSet;

use lib::calc::{cell_owner, expanded_record, object_of_type, Dependency, TYPE_ENGINE, TYPE_OWNER_DEPENDENCIES};
use lib::document::ArchiveObject;
use lib::formula::Uuid;
use lib::pb::{Message, Value};

/// `A3 = A1 + A2`, as the app registers it: the cell, then the rows of its
/// precedents and then their columns.
#[test]
fn the_record_of_a3_reading_a1_and_a2() {
    let dependency = Dependency {
        row: 2,
        column: 0,
        precedents: BTreeSet::from([(0, 0), (1, 0)]),
    };
    let record = expanded_record(&dependency);
    assert_eq!(
        record.encode(),
        vec![0x08, 0x00, 0x10, 0x02, 0x32, 0x08, 0x08, 0x00, 0x08, 0x01, 0x10, 0x00, 0x10, 0x00]
    );
}

/// The edges come out by row, then by column, whatever order the set was
/// filled in, and the rows and columns pair up.
#[test]
fn edges_are_listed_by_row_then_column() {
    let dependency = Dependency {
        row: 9,
        column: 4,
        precedents: BTreeSet::from([(5, 1), (0, 3), (5, 0)]),
    };
    let record = expanded_record(&dependency);
    assert_eq!(record.varint(1), Some(4));
    assert_eq!(record.varint(2), Some(9));
    let edges = match record.get(6) {
        Some(Value::Bytes(raw)) => Message::decode(raw).unwrap(),
        _ => panic!("no edges"),
    };
    let numbers = |n: u32| -> Vec<u64> {
        edges
            .all(n)
            .into_iter()
            .map(|v| match v {
                Value::Varint(x) => *x,
                _ => panic!(),
            })
            .collect()
    };
    assert_eq!(numbers(1), vec![0, 5, 5]);
    assert_eq!(numbers(2), vec![3, 0, 1]);
}

fn object(identifier: u64, message_type: u32, archive: &Message) -> (String, ArchiveObject) {
    (
        "Index/CalculationEngine.iwa".to_string(),
        ArchiveObject { identifier, message_type, payload: archive.encode() },
    )
}

fn owner(lower: u64, upper: u64, id: Option<u64>) -> Message {
    let mut uid = Message::default();
    uid.set_in_order(1, Value::Varint(lower));
    uid.set_in_order(2, Value::Varint(upper));
    let mut archive = Message::default();
    archive.set_in_order(1, Value::Bytes(uid.encode()));
    if let Some(id) = id {
        archive.set_in_order(2, Value::Varint(id));
    }
    archive
}

#[test]
fn the_cell_owner_is_the_one_with_the_base_uid() {
    let objects = vec![
        object(10, TYPE_ENGINE, &Message::default()),
        object(11, TYPE_OWNER_DEPENDENCIES, &owner(1, 2, Some(5))),
        object(12, TYPE_OWNER_DEPENDENCIES, &owner(7, 8, None)),
        object(13, TYPE_OWNER_DEPENDENCIES, &owner(7, 8, Some(6))),
    ];
    assert_eq!(object_of_type(&objects, TYPE_ENGINE), Some(10));
    assert_eq!(object_of_type(&objects, 1), None);
    assert_eq!(cell_owner(&objects, &Uuid { lower: 1, upper: 2 }), Some((11, 5)));
    // An owner that names the table but gives no id is passed over.
    assert_eq!(cell_owner(&objects, &Uuid { lower: 7, upper: 8 }), Some((13, 6)));
    assert_eq!(cell_owner(&objects, &Uuid { lower: 2, upper: 1 }), None);
}
