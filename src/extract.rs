//! Course records from the grades page and from spreadsheet rows, with repeated
//! attempts of a course merged into the best one.

use vstd::prelude::*;
use crate::decimal::{decimal_text, parse_decimal, Dec};
use crate::grade::{grade_for, score_trans_grade};
use crate::gpa::{
    all_wf, is_result_of, process_scraped_course_results, totals_fit, totals_within_limits, GPAMode,
    GPAResult, ResultSource,
};
use crate::models::{course_views, weighted_mantissa, Course, CourseView, FileError};
use crate::text::{trim_text, trimmed};

verus! {

/// The texts of the `td` cells of each `tr` row of an HTML document, in
/// document order.
pub uninterp spec fn table_cells(html: Seq<char>) -> Seq<Seq<Seq<char>>>;

/// The texts of a list of rows of cells.
pub open spec fn rows_view(rows: Seq<Vec<String>>) -> Seq<Seq<Seq<char>>> {
    rows.map_values(|row: Vec<String>| row@.map_values(|cell: String| cell@))
}

/// Relies on `scraper::Html::parse_document` to read an HTML document (it never
/// fails), on `scraper::Selector::parse` for the constant `tr` and `td` selectors
/// (both always parse), and on `ElementRef::select` and `ElementRef::text` for the
/// text of each cell of each row.
#[verifier::external_body]
fn row_cells(html: &str) -> (r: Vec<Vec<String>>)
    ensures
        rows_view(r@) == table_cells(html@),
{
    let document = scraper::Html::parse_document(html);
    let tr = scraper::Selector::parse("tr").unwrap();
    let td = scraper::Selector::parse("td").unwrap();
    let mut rows = Vec::new();
    for row in document.select(&tr) {
        let mut cells = Vec::new();
        for cell in row.select(&td) {
            cells.push(cell.text().collect::<String>());
        }
        rows.push(cells);
    }
    rows
}

/// The course that trimmed name, score, credit and category texts make: `None`
/// where name, score or credit is empty, the credit is not a non-negative
/// decimal, or the score has no grade point.
pub open spec fn course_of_parts(
    name: Seq<char>,
    score: Seq<char>,
    credit: Seq<char>,
    nature: Seq<char>,
) -> Option<CourseView> {
    if name.len() == 0 || score.len() == 0 || credit.len() == 0 {
        None
    } else {
        match decimal_text(credit) {
            None => None,
            Some(ms) => if ms.0 < 0 {
                None
            } else {
                match grade_for(score) {
                    None => None,
                    Some(g) => {
                        let c = Dec { mantissa: ms.0 as i128, scale: ms.1 as u32 };
                        let gp = Dec { mantissa: g as i128, scale: 2 };
                        Some(
                            CourseView {
                                name,
                                nature,
                                score,
                                credit: c,
                                grade: gp,
                                credit_gpa: Dec {
                                    mantissa: weighted_mantissa(c, gp) as i128,
                                    scale: 2,
                                },
                            },
                        )
                    },
                }
            },
        }
    }
}

/// The course of a grades-page row: name in cell 3, score in cell 4, credit in
/// cell 6, category in cell 11; `None` for a row of fewer than 12 cells.
pub open spec fn page_row_course(cells: Seq<Seq<char>>) -> Option<CourseView> {
    if cells.len() < 12 {
        None
    } else {
        course_of_parts(trimmed(cells[3]), trimmed(cells[4]), trimmed(cells[6]), trimmed(cells[11]))
    }
}

/// The course of a spreadsheet row: name in cell 0, credit in cell 1, score in
/// cell 2, no category; a missing cell reads as empty.
pub open spec fn sheet_row_course(cells: Seq<Seq<char>>) -> Option<CourseView> {
    let cell = |i: int| if i < cells.len() { trimmed(cells[i]) } else { Seq::<char>::empty() };
    course_of_parts(cell(0), cell(2), cell(1), Seq::<char>::empty())
}

/// `k` is the first position in `s` of a course named `name`.
pub open spec fn first_named(s: Seq<CourseView>, name: Seq<char>, k: int) -> bool {
    &&& 0 <= k < s.len()
    &&& s[k].name == name
    &&& forall|j: int| 0 <= j < k ==> s[j].name != name
}

/// `s` after one more attempt `c`: a new name is appended; a known name takes
/// `c` only where its grade point is strictly higher.
pub open spec fn merged(s: Seq<CourseView>, c: CourseView) -> Seq<CourseView> {
    if exists|k: int| first_named(s, c.name, k) {
        let k = choose|k: int| first_named(s, c.name, k);
        if c.grade.mantissa > s[k].grade.mantissa {
            s.update(k, c)
        } else {
            s
        }
    } else {
        s.push(c)
    }
}

/// The attempts of `s`, merged one by one from the first.
pub open spec fn merged_all(s: Seq<CourseView>) -> Seq<CourseView>
    decreases s.len(),
{
    if s.len() == 0 {
        s
    } else {
        merged(merged_all(s.drop_last()), s.last())
    }
}

/// The courses that `rows` make under `row_course`, merged by name.
pub open spec fn courses_of_rows(
    rows: Seq<Seq<Seq<char>>>,
    row_course: spec_fn(Seq<Seq<char>>) -> Option<CourseView>,
) -> Seq<CourseView>
    decreases rows.len(),
{
    if rows.len() == 0 {
        Seq::empty()
    } else {
        let before = courses_of_rows(rows.drop_last(), row_course);
        match row_course(rows.last()) {
            Some(c) => merged(before, c),
            None => before,
        }
    }
}

/// The courses that `rows` make under `row_course`, every attempt kept.
pub open spec fn attempts_of_rows(
    rows: Seq<Seq<Seq<char>>>,
    row_course: spec_fn(Seq<Seq<char>>) -> Option<CourseView>,
) -> Seq<CourseView>
    decreases rows.len(),
{
    if rows.len() == 0 {
        Seq::empty()
    } else {
        let before = attempts_of_rows(rows.drop_last(), row_course);
        match row_course(rows.last()) {
            Some(c) => before.push(c),
            None => before,
        }
    }
}

/// The rows after the first `n`.
pub open spec fn skip_rows(rows: Seq<Seq<Seq<char>>>, n: int) -> Seq<Seq<Seq<char>>> {
    if rows.len() <= n {
        Seq::empty()
    } else {
        rows.subrange(n, rows.len() as int)
    }
}

/// The courses of a grades page: its rows after the header, merged by name.
pub open spec fn page_courses(html: Seq<char>) -> Seq<CourseView> {
    courses_of_rows(skip_rows(table_cells(html), 1), |cells: Seq<Seq<char>>| page_row_course(cells))
}

/// A course from its trimmed texts, or `None` as `course_of_parts` says.
fn course_from_parts(name: String, score: String, credit: String, nature: String) -> (r: Option<
    Course,
>)
    ensures
        r is Some <==> course_of_parts(name@, score@, credit@, nature@) is Some,
        r is Some ==> r->0@ == course_of_parts(name@, score@, credit@, nature@)->0 && r->0@.wf(),
{
    if name.as_str().is_empty() || score.as_str().is_empty() || credit.as_str().is_empty() {
        return None;
    }
    let c = match parse_decimal(credit.as_str()) {
        None => return None,
        Some(c) => c,
    };
    if c.mantissa < 0 {
        return None;
    }
    let g = match score_trans_grade(score.as_str()) {
        None => return None,
        Some(g) => g,
    };
    Some(Course::new(name, nature, score, c, g))
}

proof fn lemma_first_named_unique(s: Seq<CourseView>, name: Seq<char>, k: int)
    requires
        first_named(s, name, k),
    ensures
        (choose|j: int| first_named(s, name, j)) == k,
{
    let j = choose|j: int| first_named(s, name, j);
    assert(first_named(s, name, j));
    if j < k {
        assert(s[j].name != name);
    } else if j > k {
        assert(s[k].name != name);
    }
}

/// Adds one attempt to a list of courses, merging it with an earlier attempt
/// of the same course.
fn merge_course(list: &mut Vec<Course>, c: Course)
    ensures
        course_views(final(list)@) == merged(course_views(old(list)@), c@),
        all_wf(course_views(old(list)@)) && c@.wf() ==> all_wf(course_views(final(list)@)),
{
    let ghost vs = course_views(list@);
    let mut k: usize = 0;
    while k < list.len()
        invariant
            vs == course_views(list@),
            vs == course_views(old(list)@),
            k <= list@.len(),
            forall|j: int| 0 <= j < k ==> vs[j].name != c@.name,
        decreases list@.len() - k,
    {
        proof {
            assert(vs[k as int] == list@[k as int]@);
        }
        if list[k].name == c.name {
            proof {
                assert(first_named(vs, c@.name, k as int));
                lemma_first_named_unique(vs, c@.name, k as int);
            }
            if c.grade.mantissa > list[k].grade.mantissa {
                let ghost cv = c@;
                list.set(k, c);
                proof {
                    assert(course_views(list@) =~= vs.update(k as int, cv));
                    if all_wf(vs) && cv.wf() {
                        assert forall|j: int| 0 <= j < course_views(list@).len() implies #[trigger] course_views(list@)[j].wf() by {
                            if j != k {
                                assert(vs[j].wf());
                            }
                        }
                    }
                }
            }
            return;
        }
        k = k + 1;
    }
    proof {
        assert(!exists|j: int| first_named(vs, c@.name, j));
    }
    let ghost cv = c@;
    list.push(c);
    proof {
        assert(course_views(list@) =~= vs.push(cv));
        if all_wf(vs) && cv.wf() {
            assert forall|j: int| 0 <= j < course_views(list@).len() implies #[trigger] course_views(list@)[j].wf() by {
                if j < vs.len() {
                    assert(vs[j].wf());
                }
            }
        }
    }
}

/// The texts of one row's cells.
pub open spec fn cells_view(cells: Seq<String>) -> Seq<Seq<char>> {
    cells.map_values(|cell: String| cell@)
}

/// The course of one grades-page row, as `page_row_course` says.
pub fn course_from_page_row(cells: &Vec<String>) -> (r: Option<Course>)
    ensures
        r is Some <==> page_row_course(cells_view(cells@)) is Some,
        r is Some ==> r->0@ == page_row_course(cells_view(cells@))->0 && r->0@.wf(),
{
    if cells.len() < 12 {
        return None;
    }
    let name = trim_text(cells[3].as_str());
    let score = trim_text(cells[4].as_str());
    let credit = trim_text(cells[6].as_str());
    let nature = trim_text(cells[11].as_str());
    course_from_parts(name, score, credit, nature)
}

/// The trimmed text of cell `i`, empty where the row is shorter.
fn cell_text(cells: &Vec<String>, i: usize) -> (r: String)
    ensures
        r@ == if i < cells@.len() {
            trimmed(cells@[i as int]@)
        } else {
            Seq::<char>::empty()
        },
{
    if i < cells.len() {
        trim_text(cells[i].as_str())
    } else {
        String::new()
    }
}

/// The course of one spreadsheet row, as `sheet_row_course` says.
pub fn course_from_sheet_row(cells: &Vec<String>) -> (r: Option<Course>)
    ensures
        r is Some <==> sheet_row_course(cells_view(cells@)) is Some,
        r is Some ==> r->0@ == sheet_row_course(cells_view(cells@))->0 && r->0@.wf(),
{
    let name = cell_text(cells, 0);
    let credit = cell_text(cells, 1);
    let score = cell_text(cells, 2);
    course_from_parts(name, score, credit, String::new())
}

/// The courses of the rows of a grades page after the header row, a course
/// that appears more than once kept at its strictly best grade point (the
/// first of equals).
pub fn courses_from_rows(rows: &Vec<Vec<String>>) -> (r: Vec<Course>)
    ensures
        course_views(r@) == courses_of_rows(
            skip_rows(rows_view(rows@), 1),
            |cells: Seq<Seq<char>>| page_row_course(cells),
        ),
        all_wf(course_views(r@)),
{
    let ghost rv = rows_view(rows@);
    let ghost f = |cells: Seq<Seq<char>>| page_row_course(cells);
    let mut out: Vec<Course> = Vec::new();
    if rows.len() == 0 {
        return out;
    }
    let mut i: usize = 1;
    proof {
        assert(rv.subrange(1, 1) =~= Seq::<Seq<Seq<char>>>::empty());
    }
    while i < rows.len()
        invariant
            rv == rows_view(rows@),
            1 <= i <= rows@.len(),
            f == (|cells: Seq<Seq<char>>| page_row_course(cells)),
            course_views(out@) == courses_of_rows(rv.subrange(1, i as int), f),
            all_wf(course_views(out@)),
        decreases rows@.len() - i,
    {
        let row = &rows[i];
        proof {
            assert(rv[i as int] == cells_view(row@));
            assert(rv.subrange(1, i + 1).drop_last() =~= rv.subrange(1, i as int));
            assert(rv.subrange(1, i + 1).last() == rv[i as int]);
            assert(f(rv[i as int]) == page_row_course(cells_view(row@)));
        }
        match course_from_page_row(row) {
            Some(c) => merge_course(&mut out, c),
            None => {},
        }
        i = i + 1;
    }
    proof {
        assert(rv.subrange(1, i as int) =~= skip_rows(rv, 1));
    }
    out
}

/// The courses of a grades page: its table rows after the header, merged by
/// name. Rows that make no course are skipped; a page without any gives none.
pub fn courses_from_page(html: &str) -> (r: Vec<Course>)
    ensures
        course_views(r@) == page_courses(html@),
        all_wf(course_views(r@)),
{
    let rows = row_cells(html);
    courses_from_rows(&rows)
}

/// The courses of spreadsheet rows after the first three, one per usable row;
/// no usable row is an error.
pub fn courses_from_sheet_rows(rows: &Vec<Vec<String>>) -> (r: Result<Vec<Course>, FileError>)
    ensures
        r is Ok <==> attempts_of_rows(
            skip_rows(rows_view(rows@), 3),
            |cells: Seq<Seq<char>>| sheet_row_course(cells),
        ).len() > 0,
        r is Ok ==> course_views(r->Ok_0@) == attempts_of_rows(
            skip_rows(rows_view(rows@), 3),
            |cells: Seq<Seq<char>>| sheet_row_course(cells),
        ) && all_wf(course_views(r->Ok_0@)),
        r is Err ==> r->Err_0 is NoValidDataFound,
{
    let ghost rv = rows_view(rows@);
    let ghost f = |cells: Seq<Seq<char>>| sheet_row_course(cells);
    let mut out: Vec<Course> = Vec::new();
    let mut i: usize = 3;
    if rows.len() < 3 {
        i = rows.len();
    }
    let ghost start = i as int;
    proof {
        assert(rv.subrange(start, start) =~= Seq::<Seq<Seq<char>>>::empty());
    }
    while i < rows.len()
        invariant
            rv == rows_view(rows@),
            start <= i <= rows@.len(),
            f == (|cells: Seq<Seq<char>>| sheet_row_course(cells)),
            start == if rows@.len() < 3 { rows@.len() as int } else { 3 },
            course_views(out@) == attempts_of_rows(rv.subrange(start, i as int), f),
            all_wf(course_views(out@)),
        decreases rows@.len() - i,
    {
        let row = &rows[i];
        proof {
            assert(rv[i as int] == cells_view(row@));
            assert(rv.subrange(start, i + 1).drop_last() =~= rv.subrange(start, i as int));
            assert(rv.subrange(start, i + 1).last() == rv[i as int]);
            assert(f(rv[i as int]) == sheet_row_course(cells_view(row@)));
        }
        match course_from_sheet_row(row) {
            Some(c) => {
                let ghost before = course_views(out@);
                let ghost cv = c@;
                out.push(c);
                proof {
                    assert(course_views(out@) =~= before.push(cv));
                    assert forall|j: int| 0 <= j < course_views(out@).len() implies #[trigger] course_views(out@)[j].wf() by {
                        if j < before.len() {
                            assert(before[j].wf());
                        }
                    }
                }
            },
            None => {},
        }
        i = i + 1;
    }
    proof {
        assert(rv.subrange(start, i as int) =~= skip_rows(rv, 3));
    }
    if out.len() == 0 {
        return Err(FileError::NoValidDataFound);
    }
    Ok(out)
}

/// The courses that usable spreadsheet rows make, every attempt kept.
pub open spec fn sheet_courses(rows: Seq<Vec<String>>) -> Seq<CourseView> {
    attempts_of_rows(skip_rows(rows_view(rows), 3), |cells: Seq<Seq<char>>| sheet_row_course(cells))
}

/// The all-courses result of spreadsheet rows: no usable row, or totals past
/// the arithmetic's range, is an error.
pub fn score_from_sheet(rows: &Vec<Vec<String>>) -> (r: Result<GPAResult, FileError>)
    ensures
        sheet_courses(rows@).len() == 0 ==> r is Err && r->Err_0 is NoValidDataFound,
        sheet_courses(rows@).len() > 0 && !totals_fit(sheet_courses(rows@)) ==> r is Err
            && r->Err_0 is OpenError,
        sheet_courses(rows@).len() > 0 && totals_fit(sheet_courses(rows@)) ==> r is Ok
            && is_result_of(r->Ok_0, sheet_courses(rows@), GPAMode::All),
{
    let courses = match courses_from_sheet_rows(rows) {
        Ok(c) => c,
        Err(e) => return Err(e),
    };
    if !totals_within_limits(courses.as_slice()) {
        return Err(FileError::OpenError(String::from_str("课程学分总和过大")));
    }
    let results = process_scraped_course_results(courses.as_slice(), ResultSource::InputFile);
    Ok(results.all)
}

/// No two courses of `s` share a name.
pub open spec fn names_unique(s: Seq<CourseView>) -> bool {
    forall|i: int, j: int| 0 <= i < j < s.len() ==> #[trigger] s[i].name != #[trigger] s[j].name
}

/// Merging an attempt into a list without repeated names keeps it so.
pub proof fn lemma_merged_names_unique(s: Seq<CourseView>, c: CourseView)
    requires
        names_unique(s),
    ensures
        names_unique(merged(s, c)),
{
    if exists|k: int| first_named(s, c.name, k) {
        let k = choose|k: int| first_named(s, c.name, k);
        let t = merged(s, c);
        assert forall|i: int, j: int| 0 <= i < j < t.len() implies #[trigger] t[i].name
            != #[trigger] t[j].name by {
            assert(t[i].name == s[i].name);
            assert(t[j].name == s[j].name);
        }
    } else {
        assert forall|j: int| 0 <= j < s.len() implies #[trigger] s[j].name != c.name by {
            if s[j].name == c.name {
                assert(first_named(s, c.name, j));
            }
        }
    }
}

/// The courses of any rows hold each name once.
pub proof fn lemma_rows_names_unique(
    rows: Seq<Seq<Seq<char>>>,
    row_course: spec_fn(Seq<Seq<char>>) -> Option<CourseView>,
)
    ensures
        names_unique(courses_of_rows(rows, row_course)),
    decreases rows.len(),
{
    if rows.len() > 0 {
        lemma_rows_names_unique(rows.drop_last(), row_course);
        match row_course(rows.last()) {
            Some(c) => lemma_merged_names_unique(courses_of_rows(rows.drop_last(), row_course), c),
            None => {},
        }
    }
}

/// Of two attempts at one course, the one with the strictly higher grade point
/// stays; on equal grade points the first stays.
pub proof fn lemma_retake_keeps_higher(a: CourseView, b: CourseView)
    requires
        a.name == b.name,
    ensures
        merged_all(seq![a, b]) == seq![
            if b.grade.mantissa > a.grade.mantissa {
                b
            } else {
                a
            },
        ],
{
    let s = seq![a, b];
    assert(s.drop_last() =~= seq![a]);
    assert(seq![a].drop_last() =~= Seq::<CourseView>::empty());
    assert(merged_all(Seq::<CourseView>::empty()) == Seq::<CourseView>::empty());
    assert(!exists|k: int| first_named(Seq::<CourseView>::empty(), a.name, k));
    assert(merged(Seq::<CourseView>::empty(), a) =~= seq![a]);
    assert(merged_all(seq![a]) == seq![a]);
    assert(first_named(seq![a], b.name, 0));
    lemma_first_named_unique(seq![a], b.name, 0);
    if b.grade.mantissa > a.grade.mantissa {
        assert(seq![a].update(0, b) =~= seq![b]);
    }
}

} // verus!
