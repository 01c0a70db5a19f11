//! Ranges of one column in the notation of the spreadsheet service, such as
//! `A1:A10`: the letters of a column and a row, a colon, and the same letters
//! and a row again.
use crate::error::{viewed, StagingError, StagingErrorView};
use crate::scan::{first_index, lemma_first_index_is, lemma_first_index_none};
use crate::text::chars_of;
use vstd::prelude::*;
use vstd::string::*;

verus! {

/// Whether a character is a column letter: `A` to `Z`.
pub open spec fn is_letter(c: char) -> bool {
    'A' <= c <= 'Z'
}

/// Whether a character is a decimal digit.
pub open spec fn is_digit(c: char) -> bool {
    '0' <= c <= '9'
}

/// The end of the letters of `s` that start at `from`.
pub open spec fn letters_end(s: Seq<char>, from: int) -> int
    decreases s.len() - from,
{
    if 0 <= from < s.len() && is_letter(s[from]) {
        letters_end(s, from + 1)
    } else {
        from
    }
}

/// The end of the digits of `s` that start at `from`.
pub open spec fn digits_end(s: Seq<char>, from: int) -> int
    decreases s.len() - from,
{
    if 0 <= from < s.len() && is_digit(s[from]) {
        digits_end(s, from + 1)
    } else {
        from
    }
}

/// The number that the decimal digits `digits` stand for.
pub open spec fn decimal(digits: Seq<char>) -> nat
    decreases digits.len(),
{
    if digits.len() == 0 {
        0
    } else {
        decimal(digits.drop_last()) * 10 + (digits.last() as nat - '0' as nat) as nat
    }
}

/// Whether `row` is the number of a row: at least 1, and no more than a `u32`
/// holds.
pub open spec fn is_row(row: nat) -> bool {
    1 <= row <= u32::MAX
}

/// The rows at which a range starts and ends.
#[derive(Debug, Clone, Copy, PartialEq, Eq, Structural)]
pub struct RowBounds {
    pub start_row: u32,
    pub end_row: u32,
}

/// The rows of the range that `literal` denotes, if it denotes a range of one
/// column: letters and digits, a colon, the same letters and digits again,
/// and nothing else, where both numbers are those of rows.
pub open spec fn bounds_of(literal: Seq<char>) -> Option<RowBounds> {
    let a = letters_end(literal, 0);
    let b = digits_end(literal, a);
    let c = letters_end(literal, b + 1);
    let d = digits_end(literal, c);
    let start_row = decimal(literal.subrange(a, b));
    let end_row = decimal(literal.subrange(c, d));
    if 0 < a < b < literal.len() && literal[b] == ':' && b + 1 < c < d && d == literal.len()
        && literal.subrange(0, a) == literal.subrange(b + 1, c) && is_row(start_row) && is_row(
        end_row,
    ) {
        Some(RowBounds { start_row: start_row as u32, end_row: end_row as u32 })
    } else {
        None
    }
}

/// The letters of `s` from `from` on end within `s`, and are letters.
pub proof fn lemma_letters_end(s: Seq<char>, from: int)
    requires
        0 <= from <= s.len(),
    ensures
        from <= letters_end(s, from) <= s.len(),
        forall|i: int| from <= i < letters_end(s, from) ==> is_letter(#[trigger] s[i]),
        letters_end(s, from) < s.len() ==> !is_letter(s[letters_end(s, from)]),
    decreases s.len() - from,
{
    if from < s.len() && is_letter(s[from]) {
        lemma_letters_end(s, from + 1);
    }
}

/// The digits of `s` from `from` on end within `s`, and are digits.
pub proof fn lemma_digits_end(s: Seq<char>, from: int)
    requires
        0 <= from <= s.len(),
    ensures
        from <= digits_end(s, from) <= s.len(),
        forall|i: int| from <= i < digits_end(s, from) ==> is_digit(#[trigger] s[i]),
        digits_end(s, from) < s.len() ==> !is_digit(s[digits_end(s, from)]),
    decreases s.len() - from,
{
    if from < s.len() && is_digit(s[from]) {
        lemma_digits_end(s, from + 1);
    }
}

/// A number does not get smaller as digits are added to it.
pub proof fn lemma_decimal_grows(digits: Seq<char>, n: int)
    requires
        0 <= n <= digits.len(),
        forall|i: int| 0 <= i < digits.len() ==> is_digit(#[trigger] digits[i]),
    ensures
        decimal(digits.take(n)) <= decimal(digits),
    decreases digits.len() - n,
{
    if n < digits.len() {
        let front = digits.drop_last();
        assert(front.take(n) == digits.take(n));
        lemma_decimal_grows(front, n);
        assert(is_digit(digits[digits.len() - 1]));
    } else {
        assert(digits.take(n) == digits);
    }
}

/// The end of the letters of `chars` that start at `from`.
fn scan_letters(chars: &Vec<char>, from: usize) -> (end: usize)
    requires
        from <= chars.len(),
    ensures
        end == letters_end(chars@, from as int),
        from <= end <= chars.len(),
{
    let mut end: usize = from;
    while end < chars.len() && chars[end] >= 'A' && chars[end] <= 'Z'
        invariant
            from <= end <= chars.len(),
            letters_end(chars@, from as int) == letters_end(chars@, end as int),
        decreases chars.len() - end,
    {
        end = end + 1;
    }
    end
}

/// The end of the digits of `chars` that start at `from`.
fn scan_digits(chars: &Vec<char>, from: usize) -> (end: usize)
    requires
        from <= chars.len(),
    ensures
        end == digits_end(chars@, from as int),
        from <= end <= chars.len(),
{
    let mut end: usize = from;
    while end < chars.len() && chars[end] >= '0' && chars[end] <= '9'
        invariant
            from <= end <= chars.len(),
            digits_end(chars@, from as int) == digits_end(chars@, end as int),
        decreases chars.len() - end,
    {
        end = end + 1;
    }
    end
}

/// The number of a row that the digits of `chars` from `from` to `to` stand
/// for, if they stand for one.
fn read_row(chars: &Vec<char>, from: usize, to: usize) -> (row: Option<u32>)
    requires
        from <= to <= chars.len(),
        forall|i: int| from <= i < to ==> is_digit(#[trigger] chars[i]),
    ensures
        match row {
            Some(row) => is_row(decimal(chars@.subrange(from as int, to as int))) && row == decimal(
                chars@.subrange(from as int, to as int),
            ),
            None => !is_row(decimal(chars@.subrange(from as int, to as int))),
        },
{
    let ghost digits = chars@.subrange(from as int, to as int);
    let mut value: u32 = 0;
    let mut i: usize = from;
    assert(digits.take(0).len() == 0);
    while i < to
        invariant
            from <= i <= to <= chars.len(),
            digits == chars@.subrange(from as int, to as int),
            forall|j: int| 0 <= j < digits.len() ==> is_digit(#[trigger] digits[j]),
            value == decimal(digits.take(i - from)),
        decreases to - i,
    {
        proof {
            assert(is_digit(digits[i - from]));
            assert(digits[i - from] == chars[i as int]);
            assert(digits.take(i - from + 1).drop_last() == digits.take(i - from));
            assert(digits.take(i - from + 1).last() == chars[i as int]);
            lemma_decimal_grows(digits, i - from + 1);
        }
        let digit: u32 = chars[i] as u32 - '0' as u32;
        if value > (u32::MAX - digit) / 10 {
            assert(value * 10 + digit > u32::MAX);
            return None;
        }
        value = value * 10 + digit;
        i = i + 1;
    }
    assert(digits.take(to - from) == digits);
    if value == 0 {
        None
    } else {
        Some(value)
    }
}

/// Whether the characters of `chars` from `from` to `to` are those from
/// `other_from` to `other_to`.
fn same_chars(chars: &Vec<char>, from: usize, to: usize, other_from: usize, other_to: usize) -> (same:
    bool)
    requires
        from <= to <= chars.len(),
        other_from <= other_to <= chars.len(),
    ensures
        same == (chars@.subrange(from as int, to as int) == chars@.subrange(
            other_from as int,
            other_to as int,
        )),
{
    let ghost left = chars@.subrange(from as int, to as int);
    let ghost right = chars@.subrange(other_from as int, other_to as int);
    if to - from != other_to - other_from {
        assert(left.len() != right.len());
        return false;
    }
    let n = to - from;
    let mut i: usize = 0;
    while i < n
        invariant
            i <= n,
            n == to - from,
            n == other_to - other_from,
            to <= chars.len(),
            other_to <= chars.len(),
            left == chars@.subrange(from as int, to as int),
            right == chars@.subrange(other_from as int, other_to as int),
            forall|j: int| 0 <= j < i ==> #[trigger] left[j] == right[j],
        decreases n - i,
    {
        if chars[from + i] != chars[other_from + i] {
            assert(left[i as int] != right[i as int]);
            return false;
        }
        assert(left[i as int] == right[i as int]);
        i = i + 1;
    }
    assert(left =~= right);
    true
}

/// The rows of the range that `literal` denotes, if it denotes a range of one
/// column.
pub fn parse_bounds(literal: &str) -> (bounds: Option<RowBounds>)
    ensures
        bounds == bounds_of(literal@),
{
    let chars = chars_of(literal);
    let n = chars.len();
    let a = scan_letters(&chars, 0);
    let b = scan_digits(&chars, a);
    if !(0 < a && a < b && b < n) {
        return None;
    }
    if chars[b] != ':' {
        return None;
    }
    let c = scan_letters(&chars, b + 1);
    let d = scan_digits(&chars, c);
    if !(b + 1 < c && c < d && d == n) {
        return None;
    }
    proof {
        lemma_letters_end(chars@, 0);
        lemma_digits_end(chars@, a as int);
        lemma_letters_end(chars@, b + 1);
        lemma_digits_end(chars@, c as int);
    }
    if !same_chars(&chars, 0, a, b + 1, c) {
        return None;
    }
    let start_row = match read_row(&chars, a, b) {
        Some(row) => row,
        None => {
            return None;
        },
    };
    let end_row = match read_row(&chars, c, d) {
        Some(row) => row,
        None => {
            return None;
        },
    };
    Some(RowBounds { start_row, end_row })
}

/// The field of a slide record that a column holds.
#[derive(Debug, Clone, Copy, PartialEq, Eq, Structural)]
pub enum SlideField {
    LabName,
    RunId,
    SlideId,
    SlideName,
}

/// Where the slides are in a spreadsheet: a sheet, and in it one range of one
/// column for each field. All four ranges start at the same row and end at
/// the same row, so that the cells of one row make one record.
#[derive(Debug)]
pub struct ColumnRange {
    sheet: String,
    lab_name: String,
    run_id: String,
    slide_id: String,
    slide_name: String,
    bounds: RowBounds,
}

/// A `ColumnRange` with each text as a sequence of characters.
pub struct ColumnRangeView {
    pub sheet: Seq<char>,
    pub lab_name: Seq<char>,
    pub run_id: Seq<char>,
    pub slide_id: Seq<char>,
    pub slide_name: Seq<char>,
}

impl ColumnRangeView {
    /// The range of the field `field`.
    pub open spec fn range(self, field: SlideField) -> Seq<char> {
        match field {
            SlideField::LabName => self.lab_name,
            SlideField::RunId => self.run_id,
            SlideField::SlideId => self.slide_id,
            SlideField::SlideName => self.slide_name,
        }
    }

    /// Whether all four ranges are ranges of one column with the same rows.
    pub open spec fn valid(self) -> bool {
        &&& bounds_of(self.lab_name) is Some
        &&& bounds_of(self.run_id) == bounds_of(self.lab_name)
        &&& bounds_of(self.slide_id) == bounds_of(self.lab_name)
        &&& bounds_of(self.slide_name) == bounds_of(self.lab_name)
    }
}

impl View for ColumnRange {
    type V = ColumnRangeView;

    closed spec fn view(&self) -> ColumnRangeView {
        ColumnRangeView {
            sheet: self.sheet@,
            lab_name: self.lab_name@,
            run_id: self.run_id@,
            slide_id: self.slide_id@,
            slide_name: self.slide_name@,
        }
    }
}

impl DeepView for ColumnRange {
    type V = ColumnRangeView;

    open spec fn deep_view(&self) -> ColumnRangeView {
        self@
    }
}

/// Whether the range at a position of `ranges` does not denote a range of one
/// column.
pub open spec fn malformed_at(ranges: Seq<Seq<char>>) -> spec_fn(int) -> bool {
    |i: int| bounds_of(ranges[i]) is None
}

/// Whether the range at a position of `ranges` has other rows than the first
/// of them.
pub open spec fn other_rows_at(ranges: Seq<Seq<char>>) -> spec_fn(int) -> bool {
    |i: int| bounds_of(ranges[i]) != bounds_of(ranges[0])
}

/// The ranges of the four fields, in the order lab name, run ID, slide ID,
/// slide name.
pub open spec fn ranges_of(
    lab_name: Seq<char>,
    run_id: Seq<char>,
    slide_id: Seq<char>,
    slide_name: Seq<char>,
) -> Seq<Seq<char>> {
    seq![lab_name, run_id, slide_id, slide_name]
}

/// The place of the slides in the sheet `sheet` with these four ranges. The
/// first of the ranges that is not a range of one column is an error; if all
/// are, the first whose rows are not those of the lab names is.
pub open spec fn column_range_of(
    sheet: Seq<char>,
    lab_name: Seq<char>,
    run_id: Seq<char>,
    slide_id: Seq<char>,
    slide_name: Seq<char>,
) -> Result<ColumnRangeView, StagingErrorView> {
    let ranges = ranges_of(lab_name, run_id, slide_id, slide_name);
    match first_index(4, malformed_at(ranges)) {
        Some(i) => Err(StagingErrorView::MalformedColumnRange { literal: ranges[i] }),
        None => match first_index(4, other_rows_at(ranges)) {
            Some(i) => Err(StagingErrorView::RowBoundsMismatch { literal: ranges[i] }),
            None => Ok(ColumnRangeView { sheet, lab_name, run_id, slide_id, slide_name }),
        },
    }
}

impl ColumnRange {
    #[verifier::type_invariant]
    spec fn well_formed(self) -> bool {
        &&& self@.valid()
        &&& bounds_of(self.lab_name@) == Some(self.bounds)
    }

    /// The place of the slides in the sheet `sheet` with these four ranges:
    /// `column_range_of` them.
    pub fn new(sheet: String, lab_name: String, run_id: String, slide_id: String, slide_name: String) -> (place:
        Result<ColumnRange, StagingError>)
        ensures
            viewed(place) == column_range_of(sheet@, lab_name@, run_id@, slide_id@, slide_name@),
            place matches Ok(ranges) ==> ranges@.valid(),
    {
        let ghost ranges = ranges_of(lab_name@, run_id@, slide_id@, slide_name@);
        let ghost malformed = malformed_at(ranges);
        let ghost other = other_rows_at(ranges);
        let first = match parse_bounds(lab_name.as_str()) {
            Some(bounds) => bounds,
            None => {
                proof {
                    assert(malformed(0));
                    lemma_first_index_is(4, malformed, 0);
                }
                return Err(StagingError::MalformedColumnRange { literal: lab_name });
            },
        };
        let second = match parse_bounds(run_id.as_str()) {
            Some(bounds) => bounds,
            None => {
                proof {
                    assert(malformed(1));
                    assert(!malformed(0));
                    lemma_first_index_is(4, malformed, 1);
                }
                return Err(StagingError::MalformedColumnRange { literal: run_id });
            },
        };
        let third = match parse_bounds(slide_id.as_str()) {
            Some(bounds) => bounds,
            None => {
                proof {
                    assert(malformed(2));
                    assert(!malformed(0));
                    assert(!malformed(1));
                    lemma_first_index_is(4, malformed, 2);
                }
                return Err(StagingError::MalformedColumnRange { literal: slide_id });
            },
        };
        let fourth = match parse_bounds(slide_name.as_str()) {
            Some(bounds) => bounds,
            None => {
                proof {
                    assert(malformed(3));
                    assert(!malformed(0));
                    assert(!malformed(1));
                    assert(!malformed(2));
                    lemma_first_index_is(4, malformed, 3);
                }
                return Err(StagingError::MalformedColumnRange { literal: slide_name });
            },
        };
        proof {
            assert(!malformed(0) && !malformed(1) && !malformed(2) && !malformed(3));
            lemma_first_index_none(4, malformed);
            assert(!other(0));
        }
        if second != first {
            proof {
                assert(other(1));
                lemma_first_index_is(4, other, 1);
            }
            return Err(StagingError::RowBoundsMismatch { literal: run_id });
        }
        if third != first {
            proof {
                assert(other(2));
                assert(!other(1));
                lemma_first_index_is(4, other, 2);
            }
            return Err(StagingError::RowBoundsMismatch { literal: slide_id });
        }
        if fourth != first {
            proof {
                assert(other(3));
                assert(!other(1));
                assert(!other(2));
                lemma_first_index_is(4, other, 3);
            }
            return Err(StagingError::RowBoundsMismatch { literal: slide_name });
        }
        proof {
            assert(!other(1) && !other(2) && !other(3));
            lemma_first_index_none(4, other);
        }
        Ok(ColumnRange { sheet, lab_name, run_id, slide_id, slide_name, bounds: first })
    }

    /// The sheet that holds the slides.
    pub fn sheet(&self) -> (sheet: &String)
        ensures
            sheet@ == self@.sheet,
    {
        &self.sheet
    }

    /// The range of the field `field`.
    pub fn range(&self, field: SlideField) -> (range: &String)
        ensures
            range@ == self@.range(field),
    {
        match field {
            SlideField::LabName => &self.lab_name,
            SlideField::RunId => &self.run_id,
            SlideField::SlideId => &self.slide_id,
            SlideField::SlideName => &self.slide_name,
        }
    }

    /// The rows at which all four ranges start and end.
    pub fn bounds(&self) -> (bounds: RowBounds)
        ensures
            self@.valid(),
            bounds_of(self@.lab_name) == Some(bounds),
    {
        proof {
            use_type_invariant(self);
        }
        self.bounds
    }
}

} // verus!
