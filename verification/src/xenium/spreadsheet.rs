//! The values that the spreadsheet service returns, and the slide records
//! that they hold.
use crate::error::{viewed, ResponseDefect, StagingError, StagingErrorView};
use crate::scan::{
    first_index, lemma_filter_empty, lemma_filter_positions, lemma_filter_step,
    lemma_first_index, lemma_first_index_is, lemma_first_index_none,
};
use crate::text::same_text;
use crate::xenium::slide::{group_by_run, Slide, SlideIndex, SlideView};
use crate::xenium::N_FIELDS;
use vstd::prelude::*;

verus! {

/// How the values of a range are laid out.
#[derive(Debug, Clone, Copy, PartialEq, Eq, Structural)]
pub enum MajorDimension {
    /// Row by row.
    Rows,
}

impl MajorDimension {
    /// The tag that the spreadsheet service knows this layout by: `ROWS`.
    pub fn to_string(&self) -> (tag: String)
        ensures
            tag@ == "ROWS"@,
    {
        "ROWS".to_owned()
    }

    /// The layout with the tag `tag`, if there is one.
    pub fn from_tag(tag: &str) -> (dimension: Option<MajorDimension>)
        ensures
            dimension == if tag@ == "ROWS"@ {
                Some(MajorDimension::Rows)
            } else {
                None
            },
    {
        if same_text(tag, "ROWS") {
            Some(MajorDimension::Rows)
        } else {
            None
        }
    }
}

/// The values of one single-column range: one cell for each row.
#[derive(Debug, PartialEq, Eq)]
pub struct ValueRange {
    /// The range, as the service names it.
    pub range: String,
    /// The layout in which the service gave the values.
    pub major_dimension: MajorDimension,
    /// The cell of each row. An empty cell is an empty text.
    pub values: Vec<String>,
}

/// A `ValueRange` with each text as a sequence of characters.
pub struct ValueRangeView {
    pub range: Seq<char>,
    pub major_dimension: MajorDimension,
    pub values: Seq<Seq<char>>,
}

impl View for ValueRange {
    type V = ValueRangeView;

    open spec fn view(&self) -> ValueRangeView {
        ValueRangeView {
            range: self.range@,
            major_dimension: self.major_dimension,
            values: self.values.deep_view(),
        }
    }
}

impl DeepView for ValueRange {
    type V = ValueRangeView;

    open spec fn deep_view(&self) -> ValueRangeView {
        self@
    }
}

/// The cell of a row of a single-column range. The service leaves out the
/// empty cells at the end of a row, so a row without cells has an empty cell.
pub open spec fn cell_of(row: Seq<Seq<char>>) -> Seq<char> {
    if row.len() == 0 {
        Seq::empty()
    } else {
        row[0]
    }
}

/// Whether the row at a position holds more than one cell.
pub open spec fn wide_in(rows: Seq<Seq<Seq<char>>>) -> spec_fn(int) -> bool {
    |i: int| rows[i].len() > 1
}

/// The column that the rows `rows` of a single-column range hold: the cell of
/// each row. The first row with more than one cell is an error.
pub open spec fn column_of(rows: Seq<Seq<Seq<char>>>) -> Result<Seq<Seq<char>>, StagingErrorView> {
    match first_index(rows.len() as int, wide_in(rows)) {
        Some(i) => Err(
            StagingErrorView::MalformedResponse { defect: ResponseDefect::WideRow { row: i as usize } },
        ),
        None => Ok(Seq::new(rows.len(), |i: int| cell_of(rows[i]))),
    }
}

/// The values of the range `range` that the service gave with the layout
/// `tag` as the rows `rows`. A layout other than `ROWS` is an error; then the
/// values are `column_of` the rows.
pub open spec fn decoded(range: Seq<char>, tag: Seq<char>, rows: Seq<Seq<Seq<char>>>) -> Result<
    ValueRangeView,
    StagingErrorView,
> {
    if tag != "ROWS"@ {
        Err(StagingErrorView::MalformedResponse { defect: ResponseDefect::Dimension })
    } else {
        match column_of(rows) {
            Err(error) => Err(error),
            Ok(values) => Ok(
                ValueRangeView { range, major_dimension: MajorDimension::Rows, values },
            ),
        }
    }
}

/// The four columns of the slide sheet.
pub struct Columns {
    pub lab_names: Seq<Seq<char>>,
    pub run_ids: Seq<Seq<char>>,
    pub slide_ids: Seq<Seq<char>>,
    pub slide_names: Seq<Seq<char>>,
}

/// The row of the columns at the position `i`.
pub open spec fn row_of(columns: Columns, i: int) -> SlideView {
    SlideView {
        id: columns.slide_ids[i],
        name: columns.slide_names[i],
        run_id: columns.run_ids[i],
        lab_name: columns.lab_names[i],
    }
}

/// The rows of the columns, as many as the first column has cells.
pub open spec fn rows_of(columns: Columns) -> Seq<SlideView> {
    Seq::new(columns.lab_names.len(), |i: int| row_of(columns, i))
}

/// Whether all four cells of a row are empty.
pub open spec fn is_blank(row: SlideView) -> bool {
    row.id.len() == 0 && row.name.len() == 0 && row.run_id.len() == 0 && row.lab_name.len() == 0
}

/// Whether some cells of a row are empty and some are not.
pub open spec fn is_partial(row: SlideView) -> bool {
    !is_blank(row) && (row.id.len() == 0 || row.name.len() == 0 || row.run_id.len() == 0
        || row.lab_name.len() == 0)
}

/// Whether the row at a position is partial.
pub open spec fn partial_in(columns: Columns) -> spec_fn(int) -> bool {
    |i: int| is_partial(row_of(columns, i))
}

/// Whether a row is not blank.
pub open spec fn filled() -> spec_fn(SlideView) -> bool {
    |row: SlideView| !is_blank(row)
}

/// Whether the four columns have the same number of rows.
pub open spec fn aligned(columns: Columns) -> bool {
    columns.run_ids.len() == columns.lab_names.len() && columns.slide_ids.len()
        == columns.lab_names.len() && columns.slide_names.len() == columns.lab_names.len()
}

/// The slide records that the columns hold: one for each row that is not
/// blank, in the order of the rows. Columns of different lengths are an error,
/// and so is the first partial row.
pub open spec fn records_of(columns: Columns) -> Result<Seq<SlideView>, StagingErrorView> {
    if !aligned(columns) {
        Err(
            StagingErrorView::RowCountMismatch {
                lab_names: columns.lab_names.len() as usize,
                run_ids: columns.run_ids.len() as usize,
                slide_ids: columns.slide_ids.len() as usize,
                slide_names: columns.slide_names.len() as usize,
            },
        )
    } else {
        match first_index(columns.lab_names.len() as int, partial_in(columns)) {
            Some(i) => Err(StagingErrorView::PartialRow { row: i as usize }),
            None => Ok(rows_of(columns).filter(filled())),
        }
    }
}

/// The slides that the ranges of a response hold, by run. The response must
/// hold four ranges: the lab names, the run IDs, the slide IDs and the slide
/// names, in this order. The slides are the records of these columns.
pub open spec fn slides_of(ranges: Seq<ValueRangeView>) -> Result<
    Map<Seq<char>, Seq<SlideView>>,
    StagingErrorView,
> {
    if ranges.len() != N_FIELDS {
        Err(
            StagingErrorView::MalformedResponse {
                defect: ResponseDefect::RangeCount { found: ranges.len() as usize },
            },
        )
    } else {
        match records_of(
            Columns {
                lab_names: ranges[0].values,
                run_ids: ranges[1].values,
                slide_ids: ranges[2].values,
                slide_names: ranges[3].values,
            },
        ) {
            Err(error) => Err(error),
            Ok(records) => Ok(group_by_run(records)),
        }
    }
}

/// The column that the rows `rows` of a single-column range hold.
pub fn column_of_rows(rows: &Vec<Vec<String>>) -> (column: Result<Vec<String>, StagingError>)
    ensures
        viewed(column) == column_of(rows.deep_view()),
{
    let ghost all = rows.deep_view();
    let mut cells: Vec<String> = Vec::new();
    let mut i: usize = 0;
    while i < rows.len()
        invariant
            i <= rows.len(),
            all == rows.deep_view(),
            cells.len() == i,
            forall|j: int| 0 <= j < i ==> !#[trigger] wide_in(all)(j),
            forall|j: int| 0 <= j < i ==> (#[trigger] cells[j])@ == cell_of(all[j]),
        decreases rows.len() - i,
    {
        let row = &rows[i];
        assert(all[i as int] == row.deep_view());
        assert(row.deep_view().len() == row.len());
        if row.len() > 1 {
            proof {
                assert(wide_in(all)(i as int));
                lemma_first_index_is(all.len() as int, wide_in(all), i as int);
            }
            return Err(
                StagingError::MalformedResponse { defect: ResponseDefect::WideRow { row: i } },
            );
        }
        if row.len() == 0 {
            cells.push(String::new());
        } else {
            assert(row.deep_view()[0] == row[0]@);
            cells.push(row[0].clone());
        }
        i = i + 1;
    }
    proof {
        lemma_first_index_none(all.len() as int, wide_in(all));
        assert(cells.deep_view() =~= Seq::new(all.len(), |i: int| cell_of(all[i])));
    }
    Ok(cells)
}

/// The slide records that four columns hold: `records_of` them.
pub fn slide_records(
    lab_names: &Vec<String>,
    run_ids: &Vec<String>,
    slide_ids: &Vec<String>,
    slide_names: &Vec<String>,
) -> (records: Result<Vec<Slide>, StagingError>)
    ensures
        viewed(records) == records_of(
            Columns {
                lab_names: lab_names.deep_view(),
                run_ids: run_ids.deep_view(),
                slide_ids: slide_ids.deep_view(),
                slide_names: slide_names.deep_view(),
            },
        ),
{
    let ghost columns = Columns {
        lab_names: lab_names.deep_view(),
        run_ids: run_ids.deep_view(),
        slide_ids: slide_ids.deep_view(),
        slide_names: slide_names.deep_view(),
    };
    let n = lab_names.len();
    if run_ids.len() != n || slide_ids.len() != n || slide_names.len() != n {
        return Err(
            StagingError::RowCountMismatch {
                lab_names: n,
                run_ids: run_ids.len(),
                slide_ids: slide_ids.len(),
                slide_names: slide_names.len(),
            },
        );
    }
    let ghost rows = rows_of(columns);
    let mut slides: Vec<Slide> = Vec::new();
    let mut i: usize = 0;
    proof {
        lemma_filter_empty(rows.take(0), filled());
    }
    while i < n
        invariant
            i <= n,
            n == lab_names.len() == run_ids.len() == slide_ids.len() == slide_names.len(),
            columns == (Columns {
                lab_names: lab_names.deep_view(),
                run_ids: run_ids.deep_view(),
                slide_ids: slide_ids.deep_view(),
                slide_names: slide_names.deep_view(),
            }),
            rows == rows_of(columns),
            forall|j: int| 0 <= j < i ==> !#[trigger] partial_in(columns)(j),
            slides.deep_view() == rows.take(i as int).filter(filled()),
        decreases n - i,
    {
        let lab_name = &lab_names[i];
        let run_id = &run_ids[i];
        let id = &slide_ids[i];
        let name = &slide_names[i];
        proof {
            assert(rows[i as int] == row_of(columns, i as int));
            assert(row_of(columns, i as int) == (SlideView {
                id: id@,
                name: name@,
                run_id: run_id@,
                lab_name: lab_name@,
            }));
            lemma_filter_step(rows, filled(), i as int);
        }
        let empty_cells = lab_name.as_str().is_empty() || run_id.as_str().is_empty()
            || id.as_str().is_empty() || name.as_str().is_empty();
        let blank = lab_name.as_str().is_empty() && run_id.as_str().is_empty()
            && id.as_str().is_empty() && name.as_str().is_empty();
        if !blank {
            if empty_cells {
                proof {
                    assert(partial_in(columns)(i as int));
                    lemma_first_index_is(n as int, partial_in(columns), i as int);
                }
                return Err(StagingError::PartialRow { row: i });
            }
            let ghost before = slides.deep_view();
            let slide = Slide::new(id.clone(), name.clone(), run_id.clone(), lab_name.clone());
            slides.push(slide);
            assert(slides.deep_view() == before.push(rows[i as int]));
        }
        i = i + 1;
    }
    proof {
        lemma_first_index_none(n as int, partial_in(columns));
        assert(rows.take(n as int) == rows);
    }
    Ok(slides)
}

impl ValueRange {
    /// The values of the range `range`, which the service gave with the layout
    /// `major_dimension` as the rows `rows`: `decoded` of them.
    pub fn new(range: String, major_dimension: &str, rows: &Vec<Vec<String>>) -> (values: Result<
        ValueRange,
        StagingError,
    >)
        ensures
            viewed(values) == decoded(range@, major_dimension@, rows.deep_view()),
    {
        let major_dimension = match MajorDimension::from_tag(major_dimension) {
            Some(dimension) => dimension,
            None => {
                return Err(StagingError::MalformedResponse { defect: ResponseDefect::Dimension });
            },
        };
        match column_of_rows(rows) {
            Ok(values) => Ok(ValueRange { range, major_dimension, values }),
            Err(error) => Err(error),
        }
    }

    /// The slides that the ranges of a response hold, by run: `slides_of` them.
    pub fn to_xenium_slides(ranges: &Vec<ValueRange>) -> (slides: Result<SlideIndex, StagingError>)
        ensures
            viewed(slides) == slides_of(ranges.deep_view()),
    {
        assert(ranges.deep_view().len() == ranges.len());
        if ranges.len() != N_FIELDS {
            return Err(
                StagingError::MalformedResponse {
                    defect: ResponseDefect::RangeCount { found: ranges.len() },
                },
            );
        }
        assert(ranges.deep_view()[0] == ranges[0]@);
        assert(ranges.deep_view()[1] == ranges[1]@);
        assert(ranges.deep_view()[2] == ranges[2]@);
        assert(ranges.deep_view()[3] == ranges[3]@);
        match slide_records(&ranges[0].values, &ranges[1].values, &ranges[2].values, &ranges[3].values) {
            Ok(records) => Ok(SlideIndex::from_slides(&records)),
            Err(error) => Err(error),
        }
    }
}

/// The number of cells of a row that are not empty.
pub open spec fn filled_cells(row: SlideView) -> nat {
    let id: nat = if row.id.len() > 0 { 1 } else { 0 };
    let name: nat = if row.name.len() > 0 { 1 } else { 0 };
    let run_id: nat = if row.run_id.len() > 0 { 1 } else { 0 };
    let lab_name: nat = if row.lab_name.len() > 0 { 1 } else { 0 };
    id + name + run_id + lab_name
}

/// Columns of equal length without a partial row hold exactly one record for
/// each row that is not blank, in the order of the rows: `kept` gives, for
/// each record, the position of its row.
pub proof fn lemma_one_record_per_filled_row(columns: Columns) -> (kept: Seq<int>)
    requires
        aligned(columns),
        forall|i: int| 0 <= i < columns.lab_names.len() ==> !is_partial(#[trigger] row_of(columns, i)),
    ensures
        records_of(columns) is Ok,
        kept.len() == records_of(columns)->Ok_0.len(),
        forall|k: int|
            0 <= k < kept.len() ==> 0 <= #[trigger] kept[k] < columns.lab_names.len()
                && records_of(columns)->Ok_0[k] == row_of(columns, kept[k]) && !is_blank(
                row_of(columns, kept[k]),
            ),
        forall|k: int, l: int| 0 <= k < l < kept.len() ==> #[trigger] kept[k] < #[trigger] kept[l],
        forall|i: int|
            0 <= i < columns.lab_names.len() && !is_blank(#[trigger] row_of(columns, i))
                ==> kept.contains(i),
{
    let n = columns.lab_names.len() as int;
    assert forall|i: int| 0 <= i < n implies !#[trigger] partial_in(columns)(i) by {
        assert(!is_partial(row_of(columns, i)));
    }
    lemma_first_index_none(n, partial_in(columns));
    let rows = rows_of(columns);
    let kept = lemma_filter_positions(rows, filled());
    assert forall|i: int| 0 <= i < n && !is_blank(#[trigger] row_of(columns, i)) implies kept.contains(
        i,
    ) by {
        assert(filled()(rows[i]));
    }
    kept
}

/// A row with exactly one cell that is not empty makes the columns fail with
/// a partial row.
pub proof fn lemma_lone_cell_is_partial(columns: Columns, i: int)
    requires
        aligned(columns),
        0 <= i < columns.lab_names.len(),
        filled_cells(row_of(columns, i)) == 1,
    ensures
        records_of(columns) is Err,
        records_of(columns)->Err_0 is PartialRow,
{
    assert(partial_in(columns)(i));
    lemma_first_index(columns.lab_names.len() as int, partial_in(columns));
}

} // verus!
