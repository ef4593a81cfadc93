use lib::create::component_generation;
use lib::document::Kind;

#[test]
fn the_component_generation_is_the_apps_own() {
    assert_eq!(component_generation(Kind::Pages), 835);
    assert_eq!(component_generation(Kind::Numbers), 537);
    assert_eq!(component_generation(Kind::Keynote), 2386);
}

use lib::create::{
    attribute_table, automatic_format_list, data_list, empty_offsets, header_bucket, reference_bytes,
    tile, uid, uuid_pair,
};
use lib::pb::{Message, Value};

fn nested_fields(value: &Value) -> Message {
    match value {
        Value::Bytes(raw) => Message::decode(raw).expect("a nested message"),
        other => panic!("not a nested message: {other:?}"),
    }
}

#[test]
fn a_data_list_is_its_type_and_the_next_id() {
    assert_eq!(data_list(10).encode(), vec![0x08, 0x0a, 0x10, 0x01]);
}

#[test]
fn a_reference_is_one_varint_at_field_one() {
    assert_eq!(reference_bytes(300), vec![0x08, 0xac, 0x02]);
}

#[test]
fn the_automatic_format_list_holds_format_260() {
    let list = automatic_format_list();
    assert_eq!(list.varint(1), Some(2));
    assert_eq!(list.varint(2), Some(2));
    let entry = nested_fields(list.get(3).unwrap());
    assert_eq!(entry.varint(1), Some(1));
    assert_eq!(entry.varint(2), Some(0));
    assert_eq!(nested_fields(entry.get(6).unwrap()).varint(1), Some(260));
}

#[test]
fn an_attribute_table_covers_the_whole_storage() {
    let field = attribute_table(5, 42);
    assert_eq!(field.number, 5);
    let table = nested_fields(&field.value);
    let entry = nested_fields(table.get(1).unwrap());
    assert_eq!(entry.varint(1), Some(0));
    assert_eq!(nested_fields(entry.get(2).unwrap()).varint(1), Some(42));
}

#[test]
fn a_header_bucket_has_one_entry_per_index() {
    let bucket = header_bucket(3);
    assert_eq!(bucket.fields.len(), 4);
    assert_eq!(bucket.varint(1), Some(1));
    let entries = bucket.all(2);
    assert_eq!(entries.len(), 3);
    for (index, entry) in entries.into_iter().enumerate() {
        let entry = nested_fields(entry);
        assert_eq!(entry.varint(1), Some(index as u64));
        assert_eq!(entry.get(2), Some(&Value::Fixed32(0.0f32.to_le_bytes())));
        assert_eq!(entry.varint(3), Some(0));
        assert_eq!(entry.varint(4), Some(0));
    }
}

/// Numbers pads a row's offsets to 255 slots whatever the width.
#[test]
fn offsets_are_padded_to_the_apps_width() {
    assert_eq!(empty_offsets(5), vec![0xff; 510]);
    assert_eq!(empty_offsets(300), vec![0xff; 600]);
    assert_eq!(i16::from_le_bytes([0xff, 0xff]), -1);
}

#[test]
fn an_empty_tile_has_a_row_entry_per_row() {
    let tile = tile(2, 3);
    assert_eq!(tile.fields.len(), 8);
    assert_eq!(tile.varint(4), Some(2));
    assert_eq!(tile.varint(6), Some(5));
    assert_eq!(tile.varint(7), Some(1));
    let rows = tile.all(5);
    assert_eq!(rows.len(), 2);
    let second = nested_fields(rows[1]);
    assert_eq!(second.varint(1), Some(1));
    assert_eq!(second.varint(5), Some(5));
    assert_eq!(second.bytes(4).map(|b| b.len()), Some(510));
    assert_eq!(second.bytes(3), Some(&[][..]));
}

#[test]
fn uids_are_derived_from_the_seed() {
    let words: Vec<u64> = uid(1, 1)
        .iter()
        .map(|f| match f.value {
            Value::Varint(v) => v,
            _ => panic!("a word is a varint"),
        })
        .collect();
    assert_eq!(words[0], 0x9e37_78b9);
    assert_eq!(uid(3, 2)[2].value, Value::Varint(0xdaa6_6f29));
    assert_eq!(uid(3, 2)[2].number, 4);
    let pair = uuid_pair(1, 7);
    assert_eq!(pair[0].value, Value::Varint(0x9e37_79be_7f4a_7c14));
    assert_eq!(pair[1].value, Value::Varint(0x9e37_79be_7f4a_7c17));
}

use lib::create::{table_model, TableParts};

fn parts() -> TableParts {
    TableParts {
        name: "Budget".to_string(),
        rows: 12,
        columns: 3,
        tiles: vec![(0, 500), (1, 501)],
        row_bucket: 510,
        column_bucket: 511,
        strings: 520,
        formats: 521,
        styles: 522,
        formulas: 523,
        conditional: 524,
        list_10: 525,
        list_11: 526,
        controls: 527,
        table_style: 530,
        cell_styles: (600..617).collect(),
        text_styles: (700..708).collect(),
        seed: 9,
    }
}

fn reference_of(message: &Message, number: u32) -> Option<u64> {
    message.get(number).map(|v| nested_fields(v).varint(1).unwrap())
}

#[test]
fn a_table_model_names_everything_a_new_table_needs() {
    let model = table_model(&parts(), "2F9C");
    assert_eq!(model.bytes(1), Some(&b"2F9C"[..]));
    assert_eq!(model.varint(6), Some(12));
    assert_eq!(model.varint(7), Some(3));
    assert_eq!(model.bytes(8), Some(&b"Budget"[..]));
    assert_eq!(
        model.get(16),
        Some(&Value::Fixed64(19.929931640625f64.to_le_bytes()))
    );
    assert_eq!(model.get(17), Some(&Value::Fixed64(98.0f64.to_le_bytes())));
    assert_eq!(model.get(33), Some(&Value::Fixed64(0.0f64.to_le_bytes())));
    assert_eq!(reference_of(&model, 3), Some(530));
    assert_eq!(reference_of(&model, 18), Some(600));
    assert_eq!(reference_of(&model, 24), Some(700));
    assert_eq!(reference_of(&model, 27), Some(701));
    assert_eq!(reference_of(&model, 80), Some(707));
    assert_eq!(reference_of(&model, 89), Some(616));
    assert_eq!(reference_of(&model, 44), Some(0));
    let store = nested_fields(model.get(4).unwrap());
    assert_eq!(reference_of(&store, 2), Some(511));
    let tiles = nested_fields(store.get(3).unwrap());
    assert_eq!(tiles.all(1).len(), 2);
    assert_eq!(tiles.varint(2), Some(256));
    let second = nested_fields(tiles.all(1)[1]);
    assert_eq!(second.varint(1), Some(1));
    assert_eq!(reference_of(&second, 2), Some(501));
    let owner = nested_fields(model.get(81).unwrap());
    let uid = nested_fields(owner.get(1).unwrap());
    assert_eq!((uid.varint(1), uid.varint(2)), (Some(0), Some(0)));
    let identity = nested_fields(model.get(39).unwrap());
    assert_eq!(identity.fields.len(), 4);
    assert_eq!(model.fields.len(), 57);
}

use lib::create::{
    black, cell_style, keynote_slide, list_style, numbers_stylesheet, numbers_theme, pages_document,
    sheet_archive, text_box_storage, varint, white, Paper,
};

fn float_field(message: &Message, number: u32) -> Vec<f32> {
    message
        .all(number)
        .into_iter()
        .map(|v| match v {
            Value::Fixed32(b) => f32::from_le_bytes(*b),
            _ => panic!("not a float"),
        })
        .collect()
}

#[test]
fn a_slide_names_its_master_and_a_master_names_none() {
    let slide = keynote_slide(40, Some(30));
    assert_eq!(reference_of(&slide, 17), Some(30));
    assert_eq!(slide.varint(19), Some(1));
    let master = keynote_slide(40, None);
    assert_eq!(master.get(17), None);
    assert_eq!(master.fields.len(), 3);
}

#[test]
fn a_text_box_holds_its_text_only_when_it_has_some() {
    let full = text_box_storage(1, 2, 3, "Hello");
    assert_eq!(full.varint(1), Some(3));
    assert_eq!(full.bytes(3), Some(&b"Hello"[..]));
    let empty = text_box_storage(1, 2, 3, "");
    assert_eq!(empty.get(3), None);
    assert_eq!(empty.fields.len(), full.fields.len() - 1);
}

#[test]
fn a_sheet_files_three_headers_and_the_rest_as_footers() {
    let sheet = sheet_archive("Sheet 1", 10, 11, 12, &vec![20, 21, 22, 23, 24, 25]);
    assert_eq!(sheet.bytes(1), Some(&b"Sheet 1"[..]));
    assert_eq!(float_field(&sheet, 7), vec![0.72]);
    assert_eq!(float_field(&sheet, 13), vec![20.0]);
    assert_eq!(sheet.all(18).len(), 3);
    assert_eq!(sheet.all(19).len(), 3);
    assert_eq!(reference_of(&sheet, 19), Some(23));
    let short = sheet_archive("S", 10, 11, 12, &vec![20]);
    assert_eq!(short.all(18).len(), 1);
    assert_eq!(short.all(19).len(), 0);
}

#[test]
fn a_numbers_stylesheet_lists_every_style_twice_and_is_unlocked() {
    let named = vec![("a".to_string(), 5), ("b".to_string(), 6)];
    let sheet = numbers_stylesheet(&named);
    assert_eq!(sheet.all(1).len(), 2);
    assert_eq!(sheet.all(2).len(), 2);
    let second = nested_fields(sheet.all(2)[1]);
    assert_eq!(second.bytes(1), Some(&b"b"[..]));
    assert_eq!(sheet.varint(4), Some(0));
}

#[test]
fn a_theme_carries_twenty_seven_colours() {
    let theme = numbers_theme(7, varint(100, 0));
    let inner = nested_fields(theme.get(1).unwrap());
    assert_eq!(reference_of(&inner, 4), Some(7));
    assert_eq!(inner.all(10).len(), 27);
    let second = nested_fields(inner.all(10)[1]);
    assert_eq!(float_field(&second, 3), vec![0.84]);
    assert_eq!(float_field(&second, 6), vec![1.0]);
}

#[test]
fn colours_are_srgb_and_opaque() {
    let white = Message { fields: white() };
    assert_eq!(float_field(&white, 3), vec![1.0]);
    assert_eq!(float_field(&white, 13), vec![1.0]);
    let black = Message { fields: black() };
    assert_eq!(float_field(&black, 5), vec![0.0]);
    assert_eq!(black.varint(12), Some(1));
}

#[test]
fn the_paper_decides_the_page() {
    let a4 = pages_document(1, 2, 3, 4, Paper::A4);
    assert_eq!(float_field(&a4, 30), vec![595.28]);
    assert_eq!(float_field(&a4, 32), vec![56.692917]);
    assert_eq!(a4.bytes(44), Some(&b"iso-a4"[..]));
    assert_eq!(a4.bytes(43), Some(&b" "[..]));
    let letter = pages_document(1, 2, 3, 4, Paper::Letter);
    assert_eq!(float_field(&letter, 31), vec![792.0]);
    assert_eq!(float_field(&letter, 37), vec![43.2]);
    assert_eq!(letter.bytes(44), Some(&b"na-letter"[..]));
}

#[test]
fn list_and_cell_styles_carry_their_measurements() {
    let list = list_style(9);
    let indents: Vec<f32> = (0..9).map(|level| 36.0 * level as f32).collect();
    assert_eq!(float_field(&list, 13), indents);
    assert_eq!(float_field(&list, 12), vec![0.0; 9]);
    let cell = cell_style("cell-0", 9);
    let padding = nested_fields(nested_fields(cell.get(11).unwrap()).get(9).unwrap());
    assert_eq!(float_field(&padding, 1), vec![4.0]);
}

use lib::create::{
    body_storage, column_style, column_variation, keynote_slide_node, master_archive, named_style,
    nested_message, numbers_document, page_storage, sheet_style, stylesheet_archive, ROOT,
};

#[test]
fn style_archives_name_their_stylesheet() {
    let named = named_style("table-style-0", 401);
    let base = nested_fields(named.get(1).unwrap());
    assert_eq!(base.bytes(2), Some(&b"table-style-0"[..]));
    assert_eq!(reference_of(&base, 5), Some(401));
    let column = column_style(401);
    let layout = nested_fields(column.get(11).unwrap());
    assert_eq!(layout.varint(1), Some(1));
    assert_eq!(reference_of(&nested_fields(layout.get(7).unwrap()), 1), Some(ROOT));
    let variation = nested_fields(column_variation(401, 900).get(1).unwrap());
    assert_eq!(reference_of(&variation, 3), Some(900));
    assert_eq!(variation.varint(4), Some(1));
    let sheet = sheet_style(401);
    let fill = nested_fields(nested_fields(sheet.get(3).unwrap()).get(1).unwrap());
    let colour = nested_fields(fill.get(1).unwrap());
    assert_eq!(colour.get(3), Some(&Value::Fixed32(1.0f32.to_le_bytes())));
}

#[test]
fn storages_carry_one_entry_in_every_table() {
    let body = body_storage(401, 10, 11, 12);
    assert_eq!(body.varint(1), Some(0));
    let paragraphs = nested_fields(nested_fields(body.get(5).unwrap()).get(1).unwrap());
    assert_eq!(reference_of(&paragraphs, 2), Some(10));
    assert!(body.get(12).is_some());
    let header = page_storage(401, 10, 11);
    assert_eq!(header.varint(1), Some(1));
    assert!(header.get(12).is_none());
}

#[test]
fn document_archives_point_at_what_the_app_insists_on() {
    let numbers = numbers_document(2, 401, 205, 12009, 4000);
    assert_eq!(reference_of(&numbers, 6), Some(12009));
    let settings = nested_fields(numbers.get(8).unwrap());
    assert_eq!(reference_of(&settings, 4), Some(4000));
    assert_eq!(settings.bytes(1), Some(&[][..]));
    let stylesheet = stylesheet_archive(1, 2, 3, 4, 5);
    let named = nested_fields(stylesheet.get(8).unwrap());
    assert_eq!(named.all(1).len(), 3);
    let keyed = nested_fields(named.all(2)[1]);
    assert_eq!(keyed.bytes(1), Some(&b"textbox-style-preset-0"[..]));
    assert_eq!(reference_of(&keyed, 2), Some(4));
}

#[test]
fn keynote_archives_carry_their_flags() {
    let node = keynote_slide_node(31, 9);
    assert_eq!(reference_of(&node, 2), Some(31));
    assert_eq!(node.varint(26), Some(4294967295));
    assert_eq!(node.varint(21), Some(1));
    let master = master_archive(40, &vec![41, 42, 43]);
    assert_eq!(reference_of(&master, 30), Some(43));
    assert_eq!(master.bytes(10), Some(&b"Title"[..]));
    let field = nested_message(5, data_list(1));
    assert_eq!(nested_fields(&field.value).varint(1), Some(1));
}
