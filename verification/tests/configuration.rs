use scbl_utils::error::StagingError;
use scbl_utils::text_map::TextMap;
use scbl_utils::xenium::config::SpreadsheetSpecification;
use scbl_utils::xenium::range::{parse_bounds, ColumnRange, RowBounds, SlideField};
use scbl_utils::xenium::N_FIELDS;

fn place(lab_name: &str, run_id: &str, slide_id: &str, slide_name: &str) -> Result<ColumnRange, StagingError> {
    ColumnRange::new(
        "Slides".to_string(),
        lab_name.to_string(),
        run_id.to_string(),
        slide_id.to_string(),
        slide_name.to_string(),
    )
}

#[test]
fn a_slide_has_four_fields() {
    assert_eq!(N_FIELDS, 4);
}

#[test]
fn a_range_of_one_column_has_its_rows() {
    assert_eq!(parse_bounds("A1:A10"), Some(RowBounds { start_row: 1, end_row: 10 }));
    assert_eq!(parse_bounds("AB2:AB200"), Some(RowBounds { start_row: 2, end_row: 200 }));
    assert_eq!(parse_bounds("Z7:Z7"), Some(RowBounds { start_row: 7, end_row: 7 }));
    assert_eq!(parse_bounds("C10:C2"), Some(RowBounds { start_row: 10, end_row: 2 }));
    assert_eq!(
        parse_bounds("A4294967295:A0004294967295"),
        Some(RowBounds { start_row: 4294967295, end_row: 4294967295 })
    );
}

#[test]
fn a_range_of_two_columns_is_refused() {
    assert_eq!(parse_bounds("A1:B10"), None);
    assert_eq!(parse_bounds("A1:AA10"), None);
    assert_eq!(parse_bounds("AA1:A10"), None);
    assert_eq!(parse_bounds("AB1:BA10"), None);
}

#[test]
fn other_texts_are_no_ranges() {
    assert_eq!(parse_bounds(""), None);
    assert_eq!(parse_bounds("A1"), None);
    assert_eq!(parse_bounds("A1:"), None);
    assert_eq!(parse_bounds("A1:A"), None);
    assert_eq!(parse_bounds("A:A"), None);
    assert_eq!(parse_bounds("1:10"), None);
    assert_eq!(parse_bounds("a1:a10"), None);
    assert_eq!(parse_bounds("A1:A10 "), None);
    assert_eq!(parse_bounds(" A1:A10"), None);
    assert_eq!(parse_bounds("A1-A10"), None);
    assert_eq!(parse_bounds("A1:A10:A20"), None);
    assert_eq!(parse_bounds("Slides!A1:A10"), None);
    assert_eq!(parse_bounds("A１:A２"), None);
}

#[test]
fn a_row_is_at_least_one_and_fits() {
    assert_eq!(parse_bounds("A0:A10"), None);
    assert_eq!(parse_bounds("A1:A0"), None);
    assert_eq!(parse_bounds("A000:A10"), None);
    assert_eq!(parse_bounds("A1:A4294967296"), None);
    assert_eq!(parse_bounds("A99999999999999999999:A1"), None);
    assert_eq!(parse_bounds("A01:A010"), Some(RowBounds { start_row: 1, end_row: 10 }));
}

#[test]
fn four_ranges_with_the_same_rows_are_a_place() {
    let ranges = place("A2:A100", "B2:B100", "C2:C100", "D2:D100").unwrap();
    assert_eq!(ranges.sheet(), "Slides");
    assert_eq!(ranges.range(SlideField::LabName), "A2:A100");
    assert_eq!(ranges.range(SlideField::RunId), "B2:B100");
    assert_eq!(ranges.range(SlideField::SlideId), "C2:C100");
    assert_eq!(ranges.range(SlideField::SlideName), "D2:D100");
    assert_eq!(ranges.bounds(), RowBounds { start_row: 2, end_row: 100 });
}

#[test]
fn the_first_malformed_range_is_reported() {
    assert_eq!(
        place("A2:B100", "B2", "C2:C100", "D2:D100").err(),
        Some(StagingError::MalformedColumnRange { literal: "A2:B100".to_string() })
    );
    assert_eq!(
        place("A2:A100", "B2", "C2:C100", "oops").err(),
        Some(StagingError::MalformedColumnRange { literal: "B2".to_string() })
    );
    assert_eq!(
        place("A2:A100", "B2:B100", "", "D2:D100").err(),
        Some(StagingError::MalformedColumnRange { literal: "".to_string() })
    );
    assert_eq!(
        place("A2:A100", "B2:B100", "C2:C100", "D2:E100").err(),
        Some(StagingError::MalformedColumnRange { literal: "D2:E100".to_string() })
    );
}

#[test]
fn a_malformed_range_comes_before_other_rows() {
    assert_eq!(
        place("A2:A100", "B3:B100", "C2:C100", "D2").err(),
        Some(StagingError::MalformedColumnRange { literal: "D2".to_string() })
    );
}

#[test]
fn ranges_with_other_rows_are_refused() {
    assert_eq!(
        place("A2:A100", "B3:B100", "C2:C99", "D2:D100").err(),
        Some(StagingError::RowBoundsMismatch { literal: "B3:B100".to_string() })
    );
    assert_eq!(
        place("A2:A100", "B2:B100", "C2:C99", "D2:D100").err(),
        Some(StagingError::RowBoundsMismatch { literal: "C2:C99".to_string() })
    );
    assert_eq!(
        place("A2:A100", "B2:B100", "C2:C100", "D1:D100").err(),
        Some(StagingError::RowBoundsMismatch { literal: "D1:D100".to_string() })
    );
    assert!(place("A02:A100", "B2:B0100", "C2:C100", "D2:D100").is_ok());
}

#[test]
fn the_url_names_the_spreadsheet_the_sheet_and_the_range() {
    let spec = SpreadsheetSpecification {
        id: "1AbC".to_string(),
        ranges: place("A2:A100", "B2:B100", "C2:C100", "D2:D100").unwrap(),
    };
    assert_eq!(
        spec.to_url(SlideField::LabName),
        "https://sheets.googleapis.com/v4/spreadsheets/1AbC/values/Slides!A2:A100"
    );
    assert_eq!(
        spec.to_url(SlideField::SlideName),
        "https://sheets.googleapis.com/v4/spreadsheets/1AbC/values/Slides!D2:D100"
    );
    assert_eq!(
        spec.to_url(SlideField::RunId),
        "https://sheets.googleapis.com/v4/spreadsheets/1AbC/values/Slides!B2:B100"
    );
    assert_eq!(
        spec.to_url(SlideField::SlideId),
        "https://sheets.googleapis.com/v4/spreadsheets/1AbC/values/Slides!C2:C100"
    );
}

#[test]
fn a_new_map_is_empty() {
    let map = TextMap::new();
    assert_eq!(map.len(), 0);
    assert_eq!(map.get("a"), None);
    assert_eq!(map.keys(), Vec::<String>::new());
}

#[test]
fn a_map_gives_back_what_was_put_in() {
    let mut map = TextMap::new();
    assert_eq!(map.insert("b".to_string(), "2".to_string()), None);
    assert_eq!(map.insert("a".to_string(), "1".to_string()), None);
    assert_eq!(map.len(), 2);
    assert_eq!(map.get("a"), Some(&"1".to_string()));
    assert_eq!(map.get("b"), Some(&"2".to_string()));
    assert_eq!(map.get("c"), None);
    assert_eq!(map.get(""), None);
    let mut keys = map.keys();
    keys.sort();
    assert_eq!(keys, vec!["a".to_string(), "b".to_string()]);
}

#[test]
fn a_key_has_one_value() {
    let mut map = TextMap::new();
    map.insert("a".to_string(), "1".to_string());
    map.insert("b".to_string(), "2".to_string());
    assert_eq!(map.insert("a".to_string(), "3".to_string()), Some("1".to_string()));
    assert_eq!(map.len(), 2);
    assert_eq!(map.get("a"), Some(&"3".to_string()));
    assert_eq!(map.get("b"), Some(&"2".to_string()));
    let mut keys = map.keys();
    keys.sort();
    assert_eq!(keys, vec!["a".to_string(), "b".to_string()]);
}
