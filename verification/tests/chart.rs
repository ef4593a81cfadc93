use lib::chart::{
    chart_type_label, chart_type_name, is_3d, is_interactive, Grid, GridValue, SparseReferences,
};
use lib::pb::{Message, Value};

#[test]
fn a_sparse_array_is_as_long_as_its_count_says() {
    // count 6, one entry at index 4: four defaults, an override, a default.
    let mut entry = Message::default();
    entry.set(1, Value::Varint(4));
    let mut target = Message::default();
    target.set(1, Value::Varint(99));
    entry.set(2, Value::Bytes(target.encode()));
    let mut array = Message::default();
    array.set(1, Value::Varint(6));
    array.set(2, Value::Bytes(entry.encode()));

    let sparse = SparseReferences::decode(&array);
    assert_eq!(sparse.count, 6);
    assert_eq!(sparse.entries.len(), 1);
    assert_eq!(sparse.dense().len(), 6);
    assert_eq!(sparse.dense()[4], Some(99));
    assert_eq!(sparse.dense()[5], None);
}

#[test]
fn the_type_names_are_the_enum_and_the_labels_are_the_ui() {
    assert_eq!(chart_type_name(1), Some("columnChartType2D"));
    assert_eq!(chart_type_name(27), Some("radarChartType2D"));
    assert_eq!(chart_type_name(28), None);
    assert_eq!(chart_type_label(17), "3D stacked column");
    assert_eq!(chart_type_label(25), "donut");
    assert!(is_3d(16) && !is_3d(5));
    assert!(is_interactive(20) && !is_interactive(1));
}

fn number(value: f64) -> Value {
    let mut cell = Message::default();
    cell.set(1, Value::Fixed64(value.to_le_bytes()));
    Value::Bytes(cell.encode())
}

fn row(cells: Vec<Value>) -> Value {
    let mut row = Message::default();
    for cell in cells {
        row.append_in_order(1, cell);
    }
    Value::Bytes(row.encode())
}

fn id(text: &str, index: u64) -> Value {
    let mut entry = Message::default();
    entry.set(1, Value::Bytes(text.as_bytes().to_vec()));
    entry.set(2, Value::Varint(index));
    Value::Bytes(entry.encode())
}

/// A blank cell is a present, zero-length submessage; it is kept in place,
/// so the value after it stays in its column.
fn sample_grid() -> Message {
    let mut duration = Message::default();
    duration.set(3, Value::Fixed64(90.0f64.to_le_bytes()));
    let mut odd = Message::default();
    odd.set(7, Value::Varint(1));
    let mut grid = Message::default();
    grid.append_in_order(1, Value::Bytes(b"North".to_vec()));
    grid.append_in_order(1, Value::Bytes(b"South".to_vec()));
    grid.append_in_order(2, Value::Bytes(b"2023".to_vec()));
    grid.append_in_order(2, Value::Bytes(b"2024".to_vec()));
    grid.append_in_order(2, Value::Bytes(b"2025".to_vec()));
    grid.append_in_order(3, row(vec![number(1.5), Value::Bytes(Vec::new()), number(3.0)]));
    grid.append_in_order(
        3,
        row(vec![Value::Bytes(duration.encode()), Value::Bytes(odd.encode()), number(6.0)]),
    );
    let mut map = Message::default();
    map.append_in_order(1, id("r-north", 0));
    map.append_in_order(1, id("r-south", 1));
    map.append_in_order(2, id("c-2023", 0));
    grid.set(4, Value::Bytes(map.encode()));
    grid
}

#[test]
fn a_blank_grid_cell_keeps_its_place() {
    let grid = Grid::decode(&sample_grid());
    assert_eq!(grid.row_names, vec!["North".to_string(), "South".to_string()]);
    assert_eq!(grid.column_names.len(), 3);
    assert_eq!(grid.row_count(), 2);
    assert_eq!(grid.column_count(), 3);
    assert_eq!(grid.value(0, 0), GridValue::Number(1.5f64.to_le_bytes()));
    assert_eq!(grid.value(0, 1), GridValue::Empty);
    assert_eq!(grid.value(0, 2), GridValue::Number(3.0f64.to_le_bytes()));
    assert_eq!(grid.value(1, 0), GridValue::Duration(90.0f64.to_le_bytes()));
    assert_eq!(grid.value(1, 1), GridValue::Unknown);
    assert_eq!(grid.value(5, 5), GridValue::Empty);
    assert_eq!(grid.value(0, 0).number(), Some(1.5f64.to_le_bytes()));
    assert_eq!(grid.value(0, 1).number(), None);
    assert_eq!(grid.row_ids, vec![("r-north".to_string(), 0), ("r-south".to_string(), 1)]);
    assert_eq!(grid.column_ids, vec![("c-2023".to_string(), 0)]);
}

/// The series direction decides which axis is which: by row there is a
/// series per row, by column (2) one per column, over the same cells.
#[test]
fn series_run_by_row_or_by_column() {
    let grid = Grid::decode(&sample_grid());
    let by_row = grid.series(1);
    assert_eq!(grid.series_count(1), 2);
    assert_eq!(by_row[1].name.as_deref(), Some("South"));
    assert_eq!(by_row[1].values[2], GridValue::Number(6.0f64.to_le_bytes()));
    assert_eq!(grid.categories(1).len(), 3);
    let by_column = grid.series(2);
    assert_eq!(grid.series_count(2), 3);
    assert_eq!(by_column[2].name.as_deref(), Some("2025"));
    assert_eq!(by_column[2].values, vec![
        GridValue::Number(3.0f64.to_le_bytes()),
        GridValue::Number(6.0f64.to_le_bytes()),
    ]);
    assert_eq!(by_column[1].values[0], GridValue::Empty);
    assert_eq!(grid.categories(2), &grid.row_names);
}

use lib::chart::{scatter_format_name, series_direction_name, ChartReference};

#[test]
fn directions_and_scatter_formats_have_names() {
    assert_eq!(series_direction_name(1), "by row");
    assert_eq!(series_direction_name(2), "by column");
    assert_eq!(series_direction_name(0), "unknown");
    assert_eq!(scatter_format_name(1), "separate X");
    assert_eq!(scatter_format_name(2), "shared X");
    assert_eq!(scatter_format_name(9), "unknown");
    assert!(SparseReferences::default().is_empty());
}

#[test]
fn a_chart_reference_names_its_table() {
    let inside = ChartReference {
        table: Some("Portfolio".into()),
        text: "A2:A10".into(),
        parts: vec!["A2:A10".into()],
        wrapped: true,
    };
    assert_eq!(inside.to_text(), "Portfolio!A2:A10");
    let literal = ChartReference { table: None, text: "\"East\"".into(), parts: vec![], wrapped: false };
    assert_eq!(literal.to_text(), "\"East\"");
}

fn bits(value: f64) -> [u8; 8] {
    value.to_le_bytes()
}

#[test]
fn a_blank_grid_cell_holds_its_place() {
    // One row of three cells, the middle one blank: `0x0A 0x00` is a
    // present, zero-length GridValue. Dropping it would move the third value
    // into the second column.
    let cell = |value: f64| {
        let mut message = Message::default();
        message.set(1, Value::Fixed64(value.to_le_bytes()));
        message.encode()
    };
    let mut row = Message::default();
    row.append_in_order(1, Value::Bytes(cell(1.0)));
    row.append_in_order(1, Value::Bytes(Vec::new()));
    row.append_in_order(1, Value::Bytes(cell(3.0)));
    let mut grid = Message::default();
    grid.append_in_order(3, Value::Bytes(row.encode()));

    let grid = Grid::decode(&grid);
    assert_eq!(grid.column_count(), 3);
    assert_eq!(grid.value(0, 0), GridValue::Number(bits(1.0)));
    assert_eq!(grid.value(0, 1), GridValue::Empty);
    assert_eq!(grid.value(0, 1).number(), None);
    assert_eq!(grid.value(0, 2), GridValue::Number(bits(3.0)));
}

#[test]
fn the_four_grid_slots_are_four_kinds() {
    let of = |number: u32, value: f64| {
        let mut message = Message::default();
        message.set(number, Value::Fixed64(value.to_le_bytes()));
        GridValue::decode(&message)
    };
    assert_eq!(of(1, 42.0), GridValue::Number(bits(42.0)));
    assert_eq!(of(2, 42.0), GridValue::LegacyDate(bits(42.0)));
    assert_eq!(of(3, 42.0), GridValue::Duration(bits(42.0)));
    assert_eq!(of(4, 42.0), GridValue::Date(bits(42.0)));
}

#[test]
fn a_grid_is_read_rows_first_and_direction_decides_the_series() {
    let grid = Grid {
        row_names: vec!["A".into(), "B".into()],
        column_names: vec!["x".into(), "y".into(), "z".into()],
        rows: vec![
            vec![
                GridValue::Number(bits(1.0)),
                GridValue::Number(bits(2.0)),
                GridValue::Number(bits(3.0)),
            ],
            vec![
                GridValue::Number(bits(11.0)),
                GridValue::Number(bits(12.0)),
                GridValue::Number(bits(13.0)),
            ],
        ],
        ..Grid::default()
    };

    let by_row = 1;
    assert_eq!(grid.series_count(by_row), 2);
    assert_eq!(grid.categories(by_row), &vec!["x".to_string(), "y".to_string(), "z".to_string()]);
    assert_eq!(grid.series(by_row)[1].name.as_deref(), Some("B"));
    assert_eq!(grid.series(by_row)[1].values[2].number(), Some(bits(13.0)));

    let by_column = 2;
    assert_eq!(grid.series_count(by_column), 3);
    assert_eq!(grid.categories(by_column), &vec!["A".to_string(), "B".to_string()]);
    assert_eq!(grid.series(by_column)[2].name.as_deref(), Some("z"));
    assert_eq!(grid.series(by_column)[2].values[0].number(), Some(bits(3.0)));
    assert_eq!(grid.series(by_column)[2].values[1].number(), Some(bits(13.0)));
}
