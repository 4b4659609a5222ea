use gpa_calc::decimal::{round_2decimal, Dec};
use gpa_calc::grade::score_trans_grade;

fn grade(s: &str) -> Option<(i128, u32)> {
    score_trans_grade(s).map(|d| (d.mantissa, d.scale))
}

#[test]
fn label_grades() {
    assert_eq!(grade("优"), Some((433, 2)));
    assert_eq!(grade("良"), Some((333, 2)));
    assert_eq!(grade("中"), Some((233, 2)));
    assert_eq!(grade("及格"), Some((100, 2)));
    assert_eq!(grade("合格"), Some((100, 2)));
    assert_eq!(grade("不及格"), Some((0, 2)));
    assert_eq!(grade("不合格"), Some((0, 2)));
}

#[test]
fn numeric_grades() {
    assert_eq!(grade("86"), Some((367, 2)));
    assert_eq!(grade("100"), Some((467, 2)));
    assert_eq!(grade("92"), Some((433, 2)));
    assert_eq!(grade("80"), Some((333, 2)));
    assert_eq!(grade("60"), Some((133, 2)));
    assert_eq!(grade("59.99"), Some((0, 2)));
    assert_eq!(grade("0"), Some((0, 2)));
    assert_eq!(grade("94.5"), Some((433, 2)));
    assert_eq!(grade("95"), Some((467, 2)));
}

#[test]
fn absent_grades() {
    assert_eq!(grade(""), None);
    assert_eq!(grade("abc"), None);
    assert_eq!(grade("-1"), None);
    assert_eq!(grade("100.01"), None);
    assert_eq!(grade("101"), None);
    assert_eq!(grade("优秀"), None);
}

#[test]
fn grades_never_fall_as_scores_rise() {
    let mut last = -1i128;
    let mut boundaries = 0;
    for s in 0..=200 {
        let text = format!("{}.{}", s / 2, if s % 2 == 0 { "0" } else { "5" });
        let g = score_trans_grade(&text).expect("in range").mantissa;
        assert!(g >= last, "score {} fell to {}", text, g);
        if g > last {
            boundaries += 1;
        }
        last = g;
    }
    assert_eq!(boundaries, 12);
}

#[test]
fn rounding_to_two_places() {
    let r = round_2decimal(Dec::new(2675, 3));
    assert_eq!((r.mantissa, r.scale), (268, 2));
    let r = round_2decimal(Dec::new(2665, 3));
    assert_eq!((r.mantissa, r.scale), (266, 2));
    let r = round_2decimal(Dec::new(-2675, 3));
    assert_eq!((r.mantissa, r.scale), (-268, 2));
    let r = round_2decimal(Dec::new(12346, 4));
    assert_eq!((r.mantissa, r.scale), (123, 2));
    let r = round_2decimal(Dec::new(5, 1));
    assert_eq!((r.mantissa, r.scale), (5, 1));
}
