use lib::cli::{
    column_name, csv_field, encode_utf16, identifier, index, key, oneline, parse_hex, reference_name,
    reference_position, slice_units, snippet,
};

#[test]
fn a_preview_names_what_is_not_text_and_stops_at_its_width() {
    assert_eq!(oneline("a\tb\nc", 10), "a→b⏎c");
    assert_eq!(oneline("x\u{FFFC}\u{4}\u{5}\r\u{C}", 10), "x▨§¶⏎⏎");
    assert_eq!(oneline("abcdef", 3), "abc…");
    assert_eq!(oneline("abc", 3), "abc");
    assert_eq!(oneline("abc", 0), "…");
    assert_eq!(oneline("", 0), "");
}

#[test]
fn a_csv_field_is_quoted_only_when_it_has_to_be() {
    assert_eq!(csv_field("plain"), "plain");
    assert_eq!(csv_field("a,b"), "\"a,b\"");
    assert_eq!(csv_field("say \"hi\""), "\"say \"\"hi\"\"\"");
    assert_eq!(csv_field("two\nlines"), "\"two\nlines\"");
    assert_eq!(csv_field(""), "");
}

#[test]
fn a_key_is_shown_only_when_it_has_a_value() {
    assert_eq!(key(" string", Some(5)), " string=5");
    assert_eq!(key(" rich", None), "");
}

#[test]
fn cells_are_named_the_way_the_app_names_them() {
    assert_eq!(column_name(0), "A");
    assert_eq!(column_name(27), "AB");
    assert_eq!(column_name(usize::MAX), "?");
    assert_eq!(reference_name(0, 0), "A1");
    assert_eq!(reference_name(9, 26), "AA10");
}

#[test]
fn a_cell_reference_reads_back() {
    assert_eq!(reference_position("B3"), Ok((2, 1)));
    assert_eq!(reference_position("b3"), Ok((2, 1)));
    assert_eq!(reference_position("AA10"), Ok((9, 26)));
    assert_eq!(
        reference_position("3"),
        Err("'3' is not a cell reference like B3".to_string())
    );
    assert!(reference_position("B0").is_err());
    assert!(reference_position("B+3").is_err());
    assert!(reference_position("B3x").is_err());
    assert!(reference_position("B").is_err());
}

#[test]
fn identifiers_and_indexes_are_unsigned_decimals() {
    assert_eq!(identifier("42"), Ok(42));
    assert_eq!(identifier("+7"), Ok(7));
    assert_eq!(identifier("18446744073709551615"), Ok(u64::MAX));
    assert!(identifier("18446744073709551616").is_err());
    assert_eq!(identifier("x"), Err("'x' is not an object identifier".to_string()));
    assert!(identifier("").is_err());
    assert!(identifier("+").is_err());
    assert!(identifier("-1").is_err());
    assert_eq!(index("3"), Ok(3));
    assert_eq!(index("a"), Err("'a' is not a row or column index".to_string()));
}

#[test]
fn hex_reads_in_pairs_and_allows_white_space() {
    assert_eq!(parse_hex("0a 0B\tff"), Ok(vec![0x0a, 0x0b, 0xff]));
    assert_eq!(parse_hex(""), Ok(vec![]));
    assert_eq!(
        parse_hex("0a0"),
        Err("hex needs an even number of digits".to_string())
    );
    assert_eq!(parse_hex("0azz"), Err("'zz' is not hex".to_string()));
    // `u8::from_str_radix` takes a sign, so a pair may be one.
    assert_eq!(parse_hex("+a"), Ok(vec![0x0a]));
    assert!(parse_hex("-a").is_err());
}

#[test]
fn text_is_cut_by_utf16_code_units() {
    assert_eq!(encode_utf16("a😀"), "a😀".encode_utf16().collect::<Vec<u16>>());
    assert_eq!(encode_utf16("a😀"), vec![0x61, 0xD83D, 0xDE00]);
    assert_eq!(slice_units("héllo", 1, 3), "él");
    assert_eq!(slice_units("abc", 5, 9), "");
    assert_eq!(slice_units("a😀b", 1, 2), "\u{FFFD}");
}

#[test]
fn a_snippet_is_one_trimmed_line() {
    let units: Vec<u16> = "  a\u{1}b \n".encode_utf16().collect();
    assert_eq!(snippet(&units), "a b");
    let long = "x".repeat(70);
    let units: Vec<u16> = long.encode_utf16().collect();
    assert_eq!(snippet(&units), format!("{}…", "x".repeat(64)));
}

#[test]
fn a_cell_name_reads_back_to_its_cell() {
    for (row, column) in [(0, 0), (2, 1), (9, 26), (1_048_575, 16_383), (41, 702)] {
        assert_eq!(reference_position(&reference_name(row, column)), Ok((row, column)));
    }
}

use lib::formula::names::column_fits;

#[test]
fn a_column_fits_a_machine_word_or_it_does_not() {
    assert!(column_fits("B3"));
    assert!(column_fits("ZZZ"));
    assert!(column_fits("3"));
    assert!(column_fits(""));
    assert!(!column_fits(&"Z".repeat(40)));
    assert!(column_fits(&format!("{}9", "A".repeat(13))));
}

use lib::chars::lossy_utf16;

#[test]
fn utf16_is_read_the_way_std_reads_it() {
    let units = [0x61u16, 0xD83D, 0xDE00, 0xD800, 0x62, 0xDC00, 0xDBFF];
    assert_eq!(lossy_utf16(&units), "a😀\u{FFFD}b\u{FFFD}\u{FFFD}");
    assert_eq!(lossy_utf16(&units), String::from_utf16_lossy(&units));
    assert_eq!(lossy_utf16(&[]), "");
}
