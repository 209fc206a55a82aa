use piagamdispendik::cells::{column_of_reference, excel_str_cell, MAX_COLUMN};
use piagamdispendik::dates::excel_date;
use piagamdispendik::xlsx::{
    get_parsed_xlsx, get_strings_map, parse_xlsx_file_to_parts, resolve_cell_value, SharedString,
    SheetCell,
};
use std::collections::HashMap;
use std::io::Write;

fn s(x: &str) -> String {
    x.to_string()
}

#[test]
fn cell_reference_letters() {
    assert_eq!(excel_str_cell(1, 0), "A1");
    assert_eq!(excel_str_cell(7, 2), "C7");
    assert_eq!(excel_str_cell(5, 25), "Z5");
    assert_eq!(excel_str_cell(3, 26), "AA3");
    assert_eq!(excel_str_cell(1, 27), "AB1");
    assert_eq!(excel_str_cell(12, 701), "ZZ12");
    assert_eq!(excel_str_cell(12, 702), "AAA12");
    assert_eq!(excel_str_cell(1, 16383), "XFD1");
}

#[test]
fn cell_reference_round_trip() {
    for col in [0usize, 1, 25, 26, 27, 51, 52, 701, 702, 16383, 16384] {
        let r = excel_str_cell(9, col);
        assert_eq!(column_of_reference(9, &r, 77), col);
    }
    for col in (0..=MAX_COLUMN).step_by(97) {
        let r = excel_str_cell(2, col);
        assert_eq!(column_of_reference(2, &r, 0), col);
    }
}

#[test]
fn cell_reference_unresolved_keeps_previous() {
    assert_eq!(column_of_reference(3, "C4", 11), 11);
    assert_eq!(column_of_reference(3, "", 5), 5);
    assert_eq!(column_of_reference(3, "XFE3", 2), 16384);
    assert_eq!(column_of_reference(3, "XFF3", 2), 2);
    assert_eq!(column_of_reference(3, "C3", 11), 2);
}

#[test]
fn serial_dates_anomalies() {
    assert_eq!(excel_date("60", None), Some(s("1900-02-29")));
    assert_eq!(excel_date("1", None), None);
    assert_eq!(excel_date("2", None), None);
    assert_eq!(excel_date("0", None), None);
    assert_eq!(excel_date("0.0", None), None);
    assert_eq!(excel_date("3", None), Some(s("1900-01-03")));
    assert_eq!(excel_date("59", None), Some(s("1900-02-28")));
    assert_eq!(excel_date("61", None), Some(s("1900-03-01")));
}

#[test]
fn serial_dates_regular() {
    assert_eq!(excel_date("44000", None), Some(s("2020-06-18")));
    assert_eq!(excel_date("43831", None), Some(s("2020-01-01")));
    assert_eq!(excel_date("44000.75", None), Some(s("2020-06-18")));
    assert_eq!(excel_date("+44000", None), Some(s("2020-06-18")));
    assert_eq!(excel_date("2958465", None), Some(s("9999-12-31")));
    assert_eq!(excel_date("45000", Some(1462)), Some(s("2027-03-16")));
    assert_eq!(excel_date("45000", Some(-1000)), Some(s("2020-06-18")));
    assert_eq!(excel_date("2958466", None), Some(s("10000-01-01")));
    assert!(excel_date("1", Some(i64::MAX)).is_some());
    assert_eq!(excel_date("5", Some(i64::MIN)), None);
}

#[test]
fn serial_dates_not_numbers() {
    assert_eq!(excel_date("abc", None), None);
    assert_eq!(excel_date("", None), None);
    assert_eq!(excel_date(".", None), None);
    assert_eq!(excel_date("12a", None), None);
    assert_eq!(excel_date("1.2.3", None), None);
}

fn string_table() -> HashMap<usize, String> {
    let items = vec![
        SharedString { t: Some(vec![Some(s("Alpha"))]), r: None },
        SharedString { t: None, r: None },
        SharedString { t: Some(vec![Some(s("Beta")), Some(s("ignored"))]), r: None },
    ];
    get_strings_map(&items)
}

#[test]
fn shared_strings_numbered_by_position() {
    let map = string_table();
    assert_eq!(map.len(), 2);
    assert_eq!(map.get(&0), Some(&s("Alpha")));
    assert_eq!(map.get(&1), None);
    assert_eq!(map.get(&2), Some(&s("Beta")));
}

#[test]
fn shared_strings_rich_runs_first_only() {
    let items = vec![
        SharedString { t: None, r: Some(vec![Some(Some(s("Bold"))), Some(Some(s("tail")))]) },
        SharedString { t: None, r: Some(vec![Some(None)]) },
        SharedString { t: Some(vec![None]), r: None },
        SharedString { t: None, r: Some(vec![None]) },
    ];
    let map = get_strings_map(&items);
    assert_eq!(map.get(&0), Some(&s("Bold")));
    assert_eq!(map.get(&1), Some(&s("")));
    assert_eq!(map.get(&2), Some(&s("")));
    assert_eq!(map.get(&3), None);
}

#[test]
fn shared_string_lookup_and_fallback() {
    let map = string_table();
    let t = Some(s("s"));
    assert_eq!(resolve_cell_value(&map, "2", &t, &None, false), "Beta");
    assert_eq!(resolve_cell_value(&map, "5", &t, &None, false), "5");
    assert_eq!(resolve_cell_value(&map, "x", &t, &None, false), "x");
    assert_eq!(resolve_cell_value(&map, "2", &None, &None, false), "2");
    assert_eq!(resolve_cell_value(&map, "2", &Some(s("n")), &None, false), "2");
}

#[test]
fn date_column_resolution() {
    let map = string_table();
    assert_eq!(resolve_cell_value(&map, "44000", &None, &None, true), "2020-06-18");
    assert_eq!(resolve_cell_value(&map, "45000", &None, &Some(s("14")), true), "2027-03-16");
    assert_eq!(resolve_cell_value(&map, "45000", &None, &Some(s("3")), true), "2023-03-15");
    assert_eq!(resolve_cell_value(&map, "1", &None, &None, true), "1");
    assert_eq!(resolve_cell_value(&map, "2", &Some(s("s")), &None, true), "Beta");
}

fn cell(r: Option<&str>, t: Option<&str>, v: Option<&str>) -> SheetCell {
    SheetCell { r: r.map(s), s: None, t: t.map(s), v: Some(v.map(s)) }
}

#[test]
fn parsed_sheet_rows_and_columns() {
    let map = string_table();
    let rows = vec![
        Some(vec![cell(Some("A1"), Some("s"), Some("0")), cell(Some("C1"), None, Some("7"))]),
        None,
        Some(vec![cell(None, None, Some("a")), cell(None, None, Some("b")), cell(None, None, None)]),
        Some(vec![cell(Some("B3"), None, Some("x")), cell(Some("Q99"), None, Some("y"))]),
    ];
    let table = get_parsed_xlsx(&map, &vec![rows], None).unwrap();
    assert_eq!(table.len(), 3);
    assert_eq!(table[&0].get(&0), Some(&s("Alpha")));
    assert_eq!(table[&0].get(&2), Some(&s("7")));
    assert_eq!(table[&0].len(), 2);
    assert_eq!(table[&1].get(&0), Some(&s("a")));
    assert_eq!(table[&1].get(&1), Some(&s("b")));
    assert_eq!(table[&1].len(), 2);
    assert_eq!(table[&2].get(&1), Some(&s("x")));
    assert_eq!(table[&2].get(&2), Some(&s("y")));
}

#[test]
fn parsed_sheet_date_columns() {
    let map = string_table();
    let rows = vec![Some(vec![cell(Some("A1"), None, Some("44000")), cell(Some("B1"), None, Some("44000"))])];
    let table = get_parsed_xlsx(&map, &vec![rows], Some(vec![1])).unwrap();
    assert_eq!(table[&0].get(&0), Some(&s("44000")));
    assert_eq!(table[&0].get(&1), Some(&s("2020-06-18")));
}

#[test]
fn parsed_sheet_without_sheet_data() {
    let map = string_table();
    assert!(get_parsed_xlsx(&map, &vec![], None).is_err());
}

fn package(members: &[(&str, &[u8])]) -> Vec<u8> {
    let mut w = zip::ZipWriter::new(std::io::Cursor::new(Vec::new()));
    for (name, bytes) in members {
        w.start_file(*name, zip::write::FileOptions::default()).unwrap();
        w.write_all(bytes).unwrap();
    }
    w.finish().unwrap().into_inner()
}

#[test]
fn spreadsheet_parts_extracted() {
    let data = package(&[
        ("xl/workbook.xml", b"<workbook/>"),
        ("xl/sharedStrings.xml", b"<sst><si><t>Alpha</t></si></sst>"),
        ("xl/worksheets/sheet1.xml", b"<worksheet/>"),
        ("xl/worksheets/sheet2.xml", b"<other/>"),
    ]);
    let (strings, sheet) = parse_xlsx_file_to_parts(&data).unwrap();
    assert_eq!(strings, "<sst><si><t>Alpha</t></si></sst>");
    assert_eq!(sheet, "<worksheet/>");
}

#[test]
fn spreadsheet_parts_missing_give_empty_text() {
    let data = package(&[("xl/workbook.xml", b"<workbook/>")]);
    let (strings, sheet) = parse_xlsx_file_to_parts(&data).unwrap();
    assert_eq!(strings, "");
    assert_eq!(sheet, "");
}

#[test]
fn spreadsheet_parts_not_a_zip() {
    assert!(parse_xlsx_file_to_parts(&b"not a zip".to_vec()).is_err());
}

#[test]
fn absent_shared_strings_part_gives_empty_table() {
    let m = piagamdispendik::xlsx::strings_map_of_part("", None).unwrap();
    assert!(m.is_empty());
    assert!(piagamdispendik::xlsx::strings_map_of_part("<bad", None).is_none());
    let items = vec![SharedString { t: Some(vec![Some(s("x"))]), r: None }];
    let m = piagamdispendik::xlsx::strings_map_of_part("<sst/>", Some(items)).unwrap();
    assert_eq!(m.get(&0), Some(&s("x")));
}
