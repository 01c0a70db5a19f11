use scbl_utils::error::{ResponseDefect, StagingError};
use scbl_utils::xenium::slide::{Slide, SlideIndex};
use scbl_utils::xenium::spreadsheet::{column_of_rows, slide_records, MajorDimension, ValueRange};

fn column(cells: &[&str]) -> Vec<String> {
    cells.iter().map(|cell| cell.to_string()).collect()
}

fn slide(id: &str, name: &str, run_id: &str, lab_name: &str) -> Slide {
    Slide::new(id.to_string(), name.to_string(), run_id.to_string(), lab_name.to_string())
}

fn range(name: &str, cells: &[&str]) -> ValueRange {
    ValueRange {
        range: name.to_string(),
        major_dimension: MajorDimension::Rows,
        values: column(cells),
    }
}

#[test]
fn slide_new_sets_each_field() {
    let made = slide("ID1", "S1", "R1", "LabA");
    assert_eq!(made.id, "ID1");
    assert_eq!(made.name, "S1");
    assert_eq!(made.run_id, "R1");
    assert_eq!(made.lab_name, "LabA");
    assert_eq!(made.clone(), made);
}

#[test]
fn one_record_for_each_row_that_is_not_blank() {
    let records = slide_records(
        &column(&["LabA", "", "LabB", "LabA", ""]),
        &column(&["R1", "", "R2", "R1", ""]),
        &column(&["ID1", "", "ID2", "ID3", ""]),
        &column(&["S1", "", "S2", "S3", ""]),
    )
    .unwrap();
    assert_eq!(
        records,
        vec![
            slide("ID1", "S1", "R1", "LabA"),
            slide("ID2", "S2", "R2", "LabB"),
            slide("ID3", "S3", "R1", "LabA"),
        ]
    );
}

#[test]
fn no_rows_give_no_records() {
    let none: Vec<String> = Vec::new();
    assert_eq!(slide_records(&none, &none, &none, &none), Ok(Vec::new()));
    let blank = column(&["", ""]);
    assert_eq!(slide_records(&blank, &blank, &blank, &blank), Ok(Vec::new()));
}

#[test]
fn a_row_with_one_filled_cell_is_partial() {
    let filled = column(&["x"]);
    let empty = column(&[""]);
    let expected = Err(StagingError::PartialRow { row: 0 });
    assert_eq!(slide_records(&filled, &empty, &empty, &empty), expected);
    assert_eq!(slide_records(&empty, &filled, &empty, &empty), expected);
    assert_eq!(slide_records(&empty, &empty, &filled, &empty), expected);
    assert_eq!(slide_records(&empty, &empty, &empty, &filled), expected);
}

#[test]
fn a_row_with_one_empty_cell_is_partial() {
    let records = slide_records(
        &column(&["LabA", "", "LabB", "LabC"]),
        &column(&["R1", "", "R2", ""]),
        &column(&["ID1", "", "", "ID4"]),
        &column(&["S1", "", "S3", "S4"]),
    );
    assert_eq!(records, Err(StagingError::PartialRow { row: 2 }));
}

#[test]
fn columns_of_different_lengths_are_refused() {
    let records = slide_records(
        &column(&["LabA", "LabB"]),
        &column(&["R1", "R2"]),
        &column(&["ID1"]),
        &column(&["S1", "S2", "S3"]),
    );
    assert_eq!(
        records,
        Err(StagingError::RowCountMismatch { lab_names: 2, run_ids: 2, slide_ids: 1, slide_names: 3 })
    );
    let short = slide_records(&column(&[""]), &Vec::new(), &column(&[""]), &column(&[""]));
    assert_eq!(
        short,
        Err(StagingError::RowCountMismatch { lab_names: 1, run_ids: 0, slide_ids: 1, slide_names: 1 })
    );
}

#[test]
fn a_row_without_cells_has_an_empty_cell() {
    let rows = vec![column(&["a"]), Vec::new(), column(&[""]), column(&["b"])];
    assert_eq!(column_of_rows(&rows), Ok(column(&["a", "", "", "b"])));
    assert_eq!(column_of_rows(&Vec::new()), Ok(Vec::new()));
}

#[test]
fn a_row_with_two_cells_is_malformed() {
    let rows = vec![column(&["a"]), column(&["b", "c"]), column(&["d", "e", "f"])];
    assert_eq!(
        column_of_rows(&rows),
        Err(StagingError::MalformedResponse { defect: ResponseDefect::WideRow { row: 1 } })
    );
}

#[test]
fn major_dimension_is_rows() {
    assert_eq!(MajorDimension::Rows.to_string(), "ROWS");
    assert_eq!(MajorDimension::from_tag("ROWS"), Some(MajorDimension::Rows));
    assert_eq!(MajorDimension::from_tag("COLUMNS"), None);
    assert_eq!(MajorDimension::from_tag("rows"), None);
    assert_eq!(MajorDimension::from_tag(""), None);
}

#[test]
fn value_range_new_reads_the_rows() {
    let rows = vec![column(&["LabA"]), Vec::new(), column(&["LabB"])];
    let values = ValueRange::new("Slides!A2:A4".to_string(), "ROWS", &rows).unwrap();
    assert_eq!(values, range("Slides!A2:A4", &["LabA", "", "LabB"]));
}

#[test]
fn value_range_new_refuses_other_layouts_first() {
    let rows = vec![column(&["a", "b"])];
    assert_eq!(
        ValueRange::new("A1:A1".to_string(), "COLUMNS", &rows),
        Err(StagingError::MalformedResponse { defect: ResponseDefect::Dimension })
    );
    assert_eq!(
        ValueRange::new("A1:A1".to_string(), "ROWS", &rows),
        Err(StagingError::MalformedResponse { defect: ResponseDefect::WideRow { row: 0 } })
    );
}

#[test]
fn four_ranges_are_wanted() {
    let three = vec![range("a", &[]), range("b", &[]), range("c", &[])];
    assert_eq!(
        ValueRange::to_xenium_slides(&three).err(),
        Some(StagingError::MalformedResponse { defect: ResponseDefect::RangeCount { found: 3 } })
    );
    let five = vec![range("a", &[]), range("b", &[]), range("c", &[]), range("d", &[]), range("e", &[])];
    assert_eq!(
        ValueRange::to_xenium_slides(&five).err(),
        Some(StagingError::MalformedResponse { defect: ResponseDefect::RangeCount { found: 5 } })
    );
    assert_eq!(
        ValueRange::to_xenium_slides(&Vec::new()).err(),
        Some(StagingError::MalformedResponse { defect: ResponseDefect::RangeCount { found: 0 } })
    );
}

#[test]
fn to_xenium_slides_groups_by_run_in_row_order() {
    let ranges = vec![
        range("labs", &["LabA", "LabB", "", "LabA", "LabC"]),
        range("runs", &["R1", "R2", "", "R1", "R2"]),
        range("ids", &["ID1", "ID2", "", "ID3", "ID4"]),
        range("names", &["S1", "S2", "", "S3", "S4"]),
    ];
    let index = ValueRange::to_xenium_slides(&ranges).unwrap();
    assert_eq!(
        index.get("R1"),
        Some(&vec![slide("ID1", "S1", "R1", "LabA"), slide("ID3", "S3", "R1", "LabA")])
    );
    assert_eq!(
        index.get("R2"),
        Some(&vec![slide("ID2", "S2", "R2", "LabB"), slide("ID4", "S4", "R2", "LabC")])
    );
    assert_eq!(index.get("R3"), None);
    assert_eq!(index.get(""), None);
}

#[test]
fn to_xenium_slides_passes_on_the_errors_of_the_columns() {
    let short = vec![
        range("labs", &["LabA"]),
        range("runs", &["R1", "R2"]),
        range("ids", &["ID1"]),
        range("names", &["S1"]),
    ];
    assert_eq!(
        ValueRange::to_xenium_slides(&short).err(),
        Some(StagingError::RowCountMismatch { lab_names: 1, run_ids: 2, slide_ids: 1, slide_names: 1 })
    );
    let partial = vec![
        range("labs", &["LabA", "LabB"]),
        range("runs", &["R1", "R2"]),
        range("ids", &["ID1", "ID2"]),
        range("names", &["S1", ""]),
    ];
    assert_eq!(
        ValueRange::to_xenium_slides(&partial).err(),
        Some(StagingError::PartialRow { row: 1 })
    );
}

#[test]
fn an_index_of_no_slides_knows_no_run() {
    let index = SlideIndex::from_slides(&Vec::new());
    assert_eq!(index.get("R1"), None);
}

#[test]
fn an_index_keeps_the_order_within_each_run() {
    let records = vec![
        slide("3", "c", "R2", "L"),
        slide("1", "a", "R1", "L"),
        slide("4", "d", "R2", "L"),
        slide("2", "b", "R1", "L"),
        slide("5", "e", "R2", "L"),
    ];
    let index = SlideIndex::from_slides(&records);
    assert_eq!(index.get("R1"), Some(&vec![slide("1", "a", "R1", "L"), slide("2", "b", "R1", "L")]));
    assert_eq!(
        index.get("R2"),
        Some(&vec![slide("3", "c", "R2", "L"), slide("4", "d", "R2", "L"), slide("5", "e", "R2", "L")])
    );
    assert_eq!(index.get("r1"), None);
}
