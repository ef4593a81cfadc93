use lib::calc::precedents_of;
use lib::formula::names::{function_name, Names, Site, TableNames};
use lib::formula::node;
use lib::formula::number::DECIMAL128_INTEGER_HIGH;
use lib::formula::{Formula, Uuid};
use lib::pb::{Field, Message, Value};

fn message(fields: Vec<(u32, Value)>) -> Message {
    Message {
        fields: fields
            .into_iter()
            .map(|(number, value)| Field { number, value })
            .collect(),
    }
}

fn bytes(fields: Vec<(u32, Value)>) -> Value {
    Value::Bytes(message(fields).encode())
}

fn node(kind: u32, mut fields: Vec<(u32, Value)>) -> Value {
    fields.insert(0, (1, Value::Varint(u64::from(kind))));
    bytes(fields)
}

fn zigzag(v: i64) -> u64 {
    ((v << 1) ^ (v >> 63)) as u64
}

fn axis(value: i64, absolute: bool) -> Value {
    if absolute {
        bytes(vec![(1, Value::Varint(zigzag(value))), (2, Value::Varint(1))])
    } else {
        bytes(vec![(1, Value::Varint(zigzag(value)))])
    }
}

fn cell(column: i64, row: i64) -> Value {
    node(
        node::CELL_REFERENCE,
        vec![(26, axis(column, false)), (27, axis(row, false))],
    )
}

fn integer(value: u64) -> Value {
    node(
        node::NUMBER,
        vec![
            (42, Value::Varint(value)),
            (43, Value::Varint(DECIMAL128_INTEGER_HIGH)),
        ],
    )
}

fn decimal(low: u64, exponent: i64) -> Value {
    let high = ((6176 + exponent) as u64) << 49;
    node(
        node::NUMBER,
        vec![(42, Value::Varint(low)), (43, Value::Varint(high))],
    )
}

fn formula(nodes: Vec<Value>) -> Formula {
    let array = message(nodes.into_iter().map(|n| (1, n)).collect());
    let archive = message(vec![(1, Value::Bytes(array.encode()))]);
    Formula::decode(&archive).expect("a formula")
}

fn text(f: &Formula, names: &Names, table: Option<usize>, host: (i64, i64)) -> String {
    f.text(Site::new(names, table, host))
}

#[test]
fn relative_references_resolve_against_the_host_cell() {
    // =A1+A2 in A3: two rows up and one row up, in column A.
    let f = formula(vec![cell(0, -2), cell(0, -1), node(node::ADDITION, vec![])]);
    let names = Names::new(Vec::new());
    assert_eq!(text(&f, &names, None, (0, 2)), "=A1+A2");
    // The same entry keyed from B7 reads two rows up from there.
    assert_eq!(text(&f, &names, None, (1, 6)), "=B5+B6");
}

#[test]
fn operators_print_in_the_apps_spelling() {
    let f = formula(vec![
        integer(6),
        integer(3),
        node(node::SUBTRACTION, vec![]),
        integer(2),
        node(node::MULTIPLICATION, vec![]),
        node(node::NEGATION, vec![]),
    ]);
    let names = Names::default();
    assert_eq!(f.text(Site::anonymous(&names)), "=\u{2212}6\u{2212}3\u{d7}2");
}

#[test]
fn a_function_is_named_from_the_table_or_printed_as_null() {
    let f = formula(vec![
        integer(1),
        integer(2),
        node(node::FUNCTION, vec![(2, Value::Varint(168)), (3, Value::Varint(2))]),
    ]);
    let mut names = Names::default();
    assert_eq!(f.text(Site::anonymous(&names)), "=(null)(1,2)");
    names.functions.push((168, "SUM".to_string()));
    assert_eq!(function_name(&names.functions, 168), Some("SUM"));
    assert_eq!(f.text(Site::anonymous(&names)), "=SUM(1,2)");
}

#[test]
fn a_let_prints_its_bindings_in_order() {
    // =LET(x,2,y,3,x×y) is two binds and two end-scopes.
    let f = formula(vec![
        integer(2),
        node(
            node::LET_BIND,
            vec![(34, Value::Bytes(b"x".to_vec())), (37, Value::Varint(0))],
        ),
        integer(3),
        node(
            node::LET_BIND,
            vec![
                (34, Value::Bytes(b"y".to_vec())),
                (36, Value::Varint(1)),
                (37, Value::Varint(1)),
            ],
        ),
        node(node::VAR, vec![(37, Value::Varint(0))]),
        node(node::VAR, vec![(37, Value::Varint(1))]),
        node(node::MULTIPLICATION, vec![]),
        node(node::END_SCOPE, vec![]),
        node(node::END_SCOPE, vec![]),
    ]);
    let names = Names::default();
    assert_eq!(f.text(Site::anonymous(&names)), "=LET(x,2,y,3,x\u{d7}y)");
}

#[test]
fn a_string_literal_doubles_its_quotes() {
    let f = formula(vec![node(
        node::STRING,
        vec![(6, Value::Bytes(b"say \"hi\"".to_vec()))],
    )]);
    let names = Names::default();
    assert_eq!(f.text(Site::anonymous(&names)), "=\"say \"\"hi\"\"\"");
}

#[test]
fn a_decimal_prints_its_own_digits() {
    let names = Names::default();
    let at = Site::anonymous(&names);
    assert_eq!(formula(vec![integer(42)]).text(at), "=42");
    assert_eq!(formula(vec![decimal(1, -1)]).text(at), "=0.1");
    assert_eq!(formula(vec![decimal(1, -5)]).text(at), "=0.00001");
    assert_eq!(formula(vec![decimal(3, 2)]).text(at), "=300");
    assert_eq!(formula(vec![decimal(12500, -3)]).text(at), "=12.5");
}

#[test]
fn a_double_prints_the_callers_text_for_it() {
    let f = formula(vec![node(
        node::NUMBER,
        vec![(4, Value::Fixed64(1.5f64.to_le_bytes()))],
    )]);
    assert_eq!(f.doubles(), vec![1.5f64.to_le_bytes()]);
    let mut names = Names::default();
    names.doubles.push((1.5f64.to_le_bytes(), "1.5".to_string()));
    assert_eq!(f.text(Site::anonymous(&names)), "=1.5");
}

#[test]
fn a_node_this_printer_does_not_know_prints_its_number() {
    let f = formula(vec![node(node::LOCAL_CELL_REFERENCE, vec![])]);
    let names = Names::default();
    assert_eq!(f.text(Site::anonymous(&names)), "=#NODE27");
}

fn menge_table(name: &str, uid: u64) -> TableNames {
    TableNames {
        uid: Uuid {
            lower: uid,
            upper: 0,
        },
        name: name.to_string(),
        sheet: None,
        header_rows: 1,
        header_columns: 0,
        column_names: vec![None, Some("Menge".to_string())],
        row_names: Vec::new(),
    }
}

fn column_of(uid: Option<u64>) -> Value {
    let mut fields = vec![(26, axis(1, true))];
    if let Some(lower) = uid {
        let cfuuid = bytes(vec![
            (2, Value::Varint(lower & 0xffff_ffff)),
            (3, Value::Varint(lower >> 32)),
            (4, Value::Varint(0)),
            (5, Value::Varint(0)),
        ]);
        fields.push((28, bytes(vec![(1, cfuuid)])));
    }
    node(node::CELL_REFERENCE, fields)
}

/// `Menge` heads a column of both `Daten` and `Daten2`: the first table keeps
/// the name bare, the second is prefixed with its table's name.
#[test]
fn the_first_table_keeps_a_shared_name_bare() {
    let mut names = Names::new(vec![menge_table("Daten", 11), menge_table("Daten2", 22)]);
    names.functions.push((168, "SUM".to_string()));
    let sum = |reference: Value| {
        formula(vec![
            reference,
            node(node::FUNCTION, vec![(2, Value::Varint(168)), (3, Value::Varint(1))]),
        ])
    };
    let own = sum(column_of(None));
    assert_eq!(text(&own, &names, Some(0), (0, 0)), "=SUM($Menge)");
    let other = sum(column_of(Some(22)));
    assert_eq!(text(&other, &names, Some(0), (0, 0)), "=SUM(Daten2::$Menge)");
    let first = sum(column_of(Some(11)));
    assert_eq!(text(&first, &names, Some(1), (0, 0)), "=SUM($Menge)");
}

/// Eleven rows whose header all read `Item name` make Numbers print `C2`
/// rather than a name that would stand for ten cells at once.
#[test]
fn an_ambiguous_name_is_not_used() {
    let table = TableNames {
        uid: Uuid { lower: 1, upper: 0 },
        name: "Items".to_string(),
        sheet: None,
        header_rows: 1,
        header_columns: 1,
        column_names: vec![None, None, Some("Qty".to_string())],
        row_names: vec![
            None,
            Some("Item name".to_string()),
            Some("Item name".to_string()),
        ],
    };
    let names = Names::new(vec![table]);
    assert_eq!(names.tables[0].row_name(1), None);
    assert_eq!(names.tables[0].column_name(2), Some("Qty"));
    let f = formula(vec![cell(0, 0)]);
    assert_eq!(text(&f, &names, Some(0), (2, 1)), "=C2");
}

#[test]
fn a_reference_that_overflows_cannot_be_printed() {
    let f = formula(vec![cell(i64::MAX, 0)]);
    let names = Names::default();
    assert_eq!(f.try_text(Site::new(&names, None, (1, 0))), None);
    assert_eq!(
        f.try_text(Site::new(&names, None, (0, 0))),
        None,
        "a column one past the last cannot be lettered"
    );
    let g = formula(vec![cell(2, 0)]);
    assert_eq!(g.try_text(Site::new(&names, None, (0, 0))), Some("=C1".to_string()));
}

/// The cells a formula reads are resolved against the cell that holds it,
/// once each.
#[test]
fn precedents_are_resolved_against_the_host() {
    let f = formula(vec![cell(0, -2), cell(0, -1), node(node::ADDITION, vec![])]);
    let cells = precedents_of(&f, 2, 0).expect("two cells");
    assert_eq!(cells.into_iter().collect::<Vec<_>>(), vec![(0, 0), (1, 0)]);
    let twice = formula(vec![cell(1, 0), cell(1, 0), node(node::ADDITION, vec![])]);
    assert_eq!(precedents_of(&twice, 4, 4).expect("one cell").len(), 1);
}
