use lib::formula::names::{column_letters, parse_a1, quote_name};
use lib::formula::node;
use lib::formula::{range, Axis, Node};
use lib::pb::{Field, Message, Value};

fn node_of(fields: &[(u32, Value)]) -> Node {
    let mut message = Message::default();
    for (number, value) in fields {
        message.fields.push(Field {
            number: *number,
            value: value.clone(),
        });
    }
    Node::decode(message).unwrap()
}

fn sub(fields: &[(u32, Value)]) -> Value {
    let mut message = Message::default();
    for (number, value) in fields {
        message.fields.push(Field {
            number: *number,
            value: value.clone(),
        });
    }
    Value::Bytes(message.encode())
}

#[test]
fn column_letters_count_the_way_the_app_does() {
    assert_eq!(column_letters(0), "A");
    assert_eq!(column_letters(25), "Z");
    assert_eq!(column_letters(26), "AA");
    assert_eq!(column_letters(51), "AZ");
    assert_eq!(column_letters(52), "BA");
    assert_eq!(column_letters(701), "ZZ");
    assert_eq!(column_letters(702), "AAA");
}

#[test]
fn a1_parses_back() {
    assert_eq!(parse_a1("A1"), Some((0, 0)));
    assert_eq!(parse_a1("B3"), Some((2, 1)));
    assert_eq!(parse_a1("AA10"), Some((9, 26)));
    assert_eq!(parse_a1("A0"), None);
    assert_eq!(parse_a1("12"), None);
}

/// The two coordinate encodings, which are different and adjacent: a
/// cell reference's index is zigzag, a colon tract's offset is not.
#[test]
fn a_cell_coordinate_is_zigzag_and_a_tract_offset_is_not() {
    let node = node_of(&[
        (1, Value::Varint(u64::from(node::CELL_REFERENCE))),
        (26, sub(&[(1, Value::Varint(1)), (2, Value::Varint(0))])),
        (27, sub(&[(1, Value::Varint(3)), (2, Value::Varint(0))])),
    ]);
    let reference = node.reference().unwrap();
    assert_eq!(reference.column, Axis::Relative(-1));
    assert_eq!(reference.row, Axis::Relative(-2));

    let tract = node_of(&[
        (1, Value::Varint(u64::from(node::COLON_TRACT))),
        (
            33,
            sub(&[
                (1, Value::Varint(0)),
                (2, Value::Varint(0)),
                (3, Value::Varint(0)),
                (4, Value::Varint(0)),
            ]),
        ),
        (
            40,
            sub(&[
                (1, sub(&[(1, Value::Varint((-1i64) as u64))])),
                (
                    2,
                    sub(&[
                        (1, Value::Varint((-3i64) as u64)),
                        (2, Value::Varint((-1i64) as u64)),
                    ]),
                ),
            ]),
        ),
    ]);
    let reference = tract.reference().unwrap();
    assert_eq!(reference.column, Axis::Relative(-1));
    assert_eq!(reference.row, Axis::Relative(-3));
    assert_eq!(reference.row_end, Axis::Relative(-1));
}

/// An omitted `range_end` means "the same as `range_begin`" — not zero,
/// and not unbounded.
#[test]
fn an_omitted_range_end_repeats_the_beginning() {
    let mut tract = Message::default();
    tract.set(3, sub(&[(1, Value::Varint(2))]));
    assert_eq!(range(&tract, 3), Some((2, 2)));
    tract.set(4, sub(&[(1, Value::Varint(2)), (2, Value::Varint(5))]));
    assert_eq!(range(&tract, 4), Some((2, 5)));
}

#[test]
fn a_name_is_quoted_only_when_it_has_to_be() {
    assert_eq!(quote_name("Wert"), "Wert");
    assert_eq!(quote_name("x y"), "x y");
    assert_eq!(quote_name("SUM"), "SUM");
    assert_eq!(quote_name("A+B"), "'A+B'");
    assert_eq!(quote_name("groesser-gleich"), "'groesser-gleich'");
    assert_eq!(quote_name("it's"), "'it''s'");
    assert_eq!(quote_name("Preis (netto)"), "'Preis (netto)'");
}

/// Every field a node carries has to be one the schema has, at the wire
/// type the schema gives it — the check that makes a decode trustworthy.
#[test]
fn validation_rejects_a_field_the_schema_does_not_have() {
    let good = node_of(&[
        (1, Value::Varint(u64::from(node::NUMBER))),
        (4, Value::Fixed64(1.0f64.to_le_bytes())),
    ]);
    assert!(good.validate().is_ok());

    let hole = node_of(&[
        (1, Value::Varint(u64::from(node::NUMBER))),
        (31, Value::Varint(1)),
    ]);
    assert!(
        hole.validate().is_err(),
        "31 and 32 are holes in the schema"
    );

    // Field 36 is a varint from 14.4 onwards. A message there is the
    // ≤13.1 shape and must not be accepted quietly.
    let old_let = node_of(&[
        (1, Value::Varint(u64::from(node::LET_BIND))),
        (36, sub(&[(1, Value::Varint(0))])),
    ]);
    assert!(old_let.validate().is_err());
}

use lib::formula::number::{push_decimal128, DECIMAL128_BIAS, DECIMAL128_INTEGER_HIGH};

/// A decimal128 literal as the app prints it.
fn decimal_text(low: u64, high: u64) -> String {
    let mut out = Vec::new();
    push_decimal128(&mut out, low, high);
    out.into_iter().collect()
}

#[test]
fn an_integer_literal_prints_without_a_point() {
    assert_eq!(decimal_text(42, DECIMAL128_INTEGER_HIGH), "42");
    assert_eq!(DECIMAL128_INTEGER_HIGH, 0x3040_0000_0000_0000);
}

#[test]
fn a_decimal_literal_prints_its_own_digits() {
    // 1 × 10^-1, as Numbers writes 0.1.
    assert_eq!(decimal_text(1, ((DECIMAL128_BIAS - 1) as u64) << 49), "0.1");
    // 1 × 10^-5 — the case a float would print as 1e-5.
    assert_eq!(decimal_text(1, ((DECIMAL128_BIAS - 5) as u64) << 49), "0.00001");
    // 3 × 10^2, an integer written with an exponent.
    assert_eq!(decimal_text(3, ((DECIMAL128_BIAS + 2) as u64) << 49), "300");
}

#[test]
fn a_node_in_written_form_reencodes_to_its_bytes() {
    let mut fields = Message::default();
    fields.set(1, Value::Varint(u64::from(node::NUMBER)));
    fields.set(2, Value::Fixed64(2.5f64.to_le_bytes()));
    let bytes = fields.encode();
    let node = Node::decode(Message::decode(&bytes).unwrap()).unwrap();
    assert_eq!(node.encode(), bytes);
    // A varint with a redundant continuation byte reads the same but is
    // written back in its shorter form.
    let long = vec![0x08, 0x81, 0x00];
    let again = Message::decode(&long).unwrap().encode();
    assert_eq!(again, vec![0x08, 0x01]);
}

use lib::formula::Formula;

fn formula_archive(second: Value) -> Message {
    let node = node_of(&[
        (1, Value::Varint(u64::from(node::NUMBER))),
        (4, Value::Fixed64(1.0f64.to_le_bytes())),
    ]);
    let mut array = Message::default();
    array.append_in_order(1, Value::Bytes(node.encode()));
    let mut archive = Message::default();
    archive.set(1, Value::Bytes(array.encode()));
    archive.set(2, second);
    archive
}

#[test]
fn a_fixed32_value_is_never_a_varint_field() {
    let good = formula_archive(Value::Varint(3));
    assert!(Formula::host_is_readable(&good));
    assert!(Formula::decode(&good).unwrap().validate().is_ok());
    let bad = formula_archive(Value::Fixed32(3u32.to_le_bytes()));
    assert!(Formula::host_is_readable(&bad));
    assert!(Formula::decode(&bad).unwrap().validate().is_err());
}
