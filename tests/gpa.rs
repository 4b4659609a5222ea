use gpa_calc::decimal::Dec;
use gpa_calc::extract::{courses_from_rows, courses_from_sheet_rows, score_from_sheet};
use gpa_calc::gpa::{
    calculate_gpa_from_list, excluded_course_keywords, nature_exclusions, permanent_ignored_courses,
    process_scraped_course_results, totals_within_limits, GPAMode, ResultSource,
};
use gpa_calc::grade::score_trans_grade;
use gpa_calc::models::{Course, FileError};

fn course(name: &str, nature: &str, credit: Dec, score: &str) -> Course {
    let g = score_trans_grade(score).expect("score has a grade point");
    Course::new(name.to_string(), nature.to_string(), score.to_string(), credit, g)
}

fn page_row(name: &str, score: &str, credit: &str, nature: &str) -> Vec<String> {
    let mut cells: Vec<String> = (0..12).map(|i| format!("c{}", i)).collect();
    cells[3] = format!("  {} ", name);
    cells[4] = score.to_string();
    cells[6] = credit.to_string();
    cells[11] = nature.to_string();
    cells
}

fn names(v: &[Course]) -> Vec<String> {
    v.iter().map(|c| c.name.clone()).collect()
}

#[test]
fn weighted_point_is_rounded_product() {
    let c = course("Calculus", "", Dec::new(4, 0), "92");
    assert_eq!((c.credit_gpa.mantissa, c.credit_gpa.scale), (1732, 2));
    let c = course("Optics", "", Dec::new(15, 1), "86");
    // 1.5 × 3.67 = 5.505, halves to even
    assert_eq!((c.credit_gpa.mantissa, c.credit_gpa.scale), (550, 2));
}

#[test]
fn end_to_end_modes() {
    let courses = vec![
        course("Calculus", "", Dec::new(4, 0), "92"),
        course("体育", "", Dec::new(1, 0), "80"),
    ];
    assert!(totals_within_limits(&courses));
    let r = process_scraped_course_results(&courses, ResultSource::OfficialWebsite);
    let d = r.default.expect("portal data has a default result");
    assert_eq!(names(&d.courses), vec!["Calculus".to_string()]);
    assert_eq!((d.gpa.mantissa, d.gpa.scale), (433, 2));
    assert_eq!(names(&r.all.courses), vec!["Calculus".to_string(), "体育".to_string()]);
    // (4 × 4.33 + 1 × 3.33) / 5
    assert_eq!((r.all.gpa.mantissa, r.all.gpa.scale), (413, 2));
}

#[test]
fn file_source_has_no_default() {
    let courses = vec![course("Calculus", "", Dec::new(4, 0), "92")];
    let r = process_scraped_course_results(&courses, ResultSource::InputFile);
    assert!(r.default.is_none());
    assert_eq!((r.all.gpa.mantissa, r.all.gpa.scale), (433, 2));
}

#[test]
fn gpa_ignores_order() {
    let mut courses = vec![
        course("Calculus", "", Dec::new(4, 0), "92"),
        course("Optics", "", Dec::new(15, 1), "71"),
        course("Poetry", "公共选修课", Dec::new(2, 0), "良"),
        course("Law", "", Dec::new(3, 0), "66.5"),
    ];
    let a = process_scraped_course_results(&courses, ResultSource::OfficialWebsite);
    courses.reverse();
    let b = process_scraped_course_results(&courses, ResultSource::OfficialWebsite);
    courses.swap(0, 2);
    let c = process_scraped_course_results(&courses, ResultSource::OfficialWebsite);
    assert_eq!(a.all.gpa, b.all.gpa);
    assert_eq!(a.all.gpa, c.all.gpa);
    assert_eq!(a.default.unwrap().gpa, b.default.unwrap().gpa);
}

#[test]
fn zero_credit_gives_zero() {
    let r = process_scraped_course_results(&[], ResultSource::OfficialWebsite);
    assert_eq!(r.all.gpa.mantissa, 0);
    assert_eq!(r.default.unwrap().gpa.mantissa, 0);
    let courses = vec![course("Seminar", "", Dec::new(0, 0), "90")];
    let r = process_scraped_course_results(&courses, ResultSource::OfficialWebsite);
    assert_eq!(r.all.gpa.mantissa, 0);
    assert_eq!(r.all.courses.len(), 1);
}

#[test]
fn default_is_within_all() {
    let courses = vec![
        course("入学教育", "", Dec::new(1, 0), "合格"),
        course("Calculus", "", Dec::new(4, 0), "92"),
        course("大学生安全教育", "", Dec::new(1, 0), "优"),
        course("毕业实习", "", Dec::new(2, 0), "85"),
        course("Poetry", "通识教育选修", Dec::new(2, 0), "75"),
        course("Physics", "必修", Dec::new(3, 0), "61"),
    ];
    let r = process_scraped_course_results(&courses, ResultSource::OfficialWebsite);
    let all = names(&r.all.courses);
    let def = names(&r.default.unwrap().courses);
    assert!(!all.contains(&"入学教育".to_string()));
    assert_eq!(all.len(), 5);
    assert_eq!(def, vec!["Calculus".to_string(), "Physics".to_string()]);
    for n in &def {
        assert!(all.contains(n));
    }
}

#[test]
fn retake_keeps_better_attempt() {
    let rows = vec![
        page_row("name", "score", "credit", "nature"),
        page_row("Calculus", "68", "4", "必修"),
        page_row("Calculus", "80", "4", "必修"),
        page_row("Optics", "良", "2", "必修"),
        page_row("Optics", "中", "2", "必修"),
    ];
    let r = courses_from_rows(&rows);
    assert_eq!(names(&r), vec!["Calculus".to_string(), "Optics".to_string()]);
    assert_eq!(r[0].grade.mantissa, 333);
    assert_eq!(r[0].score, "80");
    assert_eq!(r[1].grade.mantissa, 333);
}

#[test]
fn retake_tie_keeps_first() {
    let rows = vec![
        page_row("h", "h", "h", "h"),
        page_row("Law", "85", "3", "first"),
        page_row("Law", "84", "3", "second"),
    ];
    let r = courses_from_rows(&rows);
    assert_eq!(r.len(), 1);
    assert_eq!(r[0].nature, "first");
}

#[test]
fn unusable_rows_are_skipped() {
    let mut short = page_row("Short", "90", "2", "x");
    short.truncate(11);
    let rows = vec![
        page_row("Calculus", "92", "4", "必修"),
        short,
        page_row("", "90", "2", "x"),
        page_row("Bad credit", "90", "two", "x"),
        page_row("Negative credit", "90", "-1", "x"),
        page_row("Bad score", "缺考", "2", "x"),
        page_row("Kept", " 90 ", " 2.5 ", " 必修 "),
    ];
    let r = courses_from_rows(&rows);
    assert_eq!(names(&r), vec!["Kept".to_string()]);
    assert_eq!(r[0].nature, "必修");
    assert_eq!((r[0].credit.mantissa, r[0].credit.scale), (25, 1));
}

#[test]
fn sheet_rows() {
    let row = |a: &str, b: &str, c: &str| vec![a.to_string(), b.to_string(), c.to_string()];
    let rows = vec![
        row("title", "", ""),
        row("", "", ""),
        row("name", "credit", "score"),
        row("Calculus", "4", "92"),
        row("Calculus", "4", "60"),
        vec!["Short".to_string()],
    ];
    let courses = courses_from_sheet_rows(&rows).ok().expect("rows");
    assert_eq!(courses.len(), 2);
    assert_eq!(courses[1].grade.mantissa, 133);
    let r = score_from_sheet(&rows).ok().expect("scored");
    // (17.32 + 5.32) / 8
    assert_eq!((r.gpa.mantissa, r.gpa.scale), (283, 2));
}

#[test]
fn sheet_without_usable_rows() {
    let rows = vec![vec!["Calculus".to_string(), "4".to_string(), "92".to_string()]];
    assert!(matches!(courses_from_sheet_rows(&rows), Err(FileError::NoValidDataFound)));
    assert!(matches!(score_from_sheet(&vec![]), Err(FileError::NoValidDataFound)));
}

#[test]
fn direct_mode_calculation() {
    let (gpa, kept) = calculate_gpa_from_list(&[], GPAMode::Default);
    assert_eq!((gpa.mantissa, gpa.scale), (0, 0));
    assert!(kept.is_empty());
    let courses = vec![
        course("体育", "", Dec::new(1, 0), "90"),
        course("Calculus", "", Dec::new(4, 0), "92"),
        course("Optics", "", Dec::new(2, 0), "75"),
    ];
    let (gpa, kept) = calculate_gpa_from_list(&courses, GPAMode::Default);
    assert_eq!(names(&kept), vec!["Calculus".to_string(), "Optics".to_string()]);
    // (17.32 + 5.34) / 6 = 3.7766...
    assert_eq!((gpa.mantissa, gpa.scale), (378, 2));
    let only_pe = vec![course("体育", "", Dec::new(1, 0), "90")];
    let (gpa, kept) = calculate_gpa_from_list(&only_pe, GPAMode::Default);
    assert_eq!(gpa.mantissa, 0);
    assert!(kept.is_empty());
}

#[test]
fn kept_lists_follow_reordering() {
    let mut courses = vec![
        course("Calculus", "", Dec::new(4, 0), "92"),
        course("体育", "", Dec::new(1, 0), "80"),
        course("Law", "", Dec::new(3, 0), "66.5"),
    ];
    let a = process_scraped_course_results(&courses, ResultSource::OfficialWebsite);
    courses.reverse();
    let b = process_scraped_course_results(&courses, ResultSource::OfficialWebsite);
    let mut na = names(&a.all.courses);
    let mut nb = names(&b.all.courses);
    na.sort();
    nb.sort();
    assert_eq!(na, nb);
    let mut da = names(&a.default.unwrap().courses);
    let mut db = names(&b.default.unwrap().courses);
    da.sort();
    db.sort();
    assert_eq!(da, db);
}

#[test]
fn exclusion_lists() {
    assert_eq!(permanent_ignored_courses(), vec!["入学教育"]);
    assert_eq!(nature_exclusions(), vec!["公共选修课", "通识教育选修"]);
    assert_eq!(excluded_course_keywords().len(), 22);
}
