//! Which courses count toward a GPA, and the weighted average over them.

use vstd::prelude::*;
use crate::decimal::{
    lemma_pow10_max, lemma_pow10_pos, pow10, pow10_exec, round_half_even, round_half_even_exec,
    Dec, MAX_SCALE,
};
use crate::models::{course_views, Course, CourseView};
use crate::text::{contains_text, has_infix, same_text};

verus! {

/// Exclusive bound on the totals that a GPA is computed from.
pub const TOTAL_LIMIT: i128 = 0x4000_0000_0000_0000_0000_0000_0000_0000;

/// How many courses count toward a GPA.
#[derive(Clone, Copy, Debug, PartialEq, Eq, Structural)]
pub enum GPAMode {
    /// Only courses of the formal major.
    Default,
    /// Every course but the permanently ignored ones.
    All,
}

/// Where a course list came from.
#[derive(Clone, Copy, Debug, PartialEq, Eq, Structural)]
pub enum ResultSource {
    /// Fetched from the portal, with course categories.
    OfficialWebsite,
    /// Read from an uploaded spreadsheet, without categories.
    InputFile,
}

/// Name fragments of the courses that the default mode leaves out.
pub open spec fn excluded_keywords() -> Seq<Seq<char>> {
    seq![
        "体育"@, "职业生涯规划与就业指导"@, "大学生安全教育"@, "大学生心理健康教育"@,
        "形势与政策"@, "军事理论"@, "军事训练"@, "军事技能"@, "创新创业教育"@,
        "劳动教育"@, "专业基础认知"@, "毕业教育"@, "社会实践"@, "社会调研"@,
        "综合实训"@, "综合设计与展示"@, "职场体验"@, "实习"@, "见习"@,
        "名师大讲堂"@, "领导力"@, "系列讲座"@,
    ]
}

/// A course that never counts.
pub open spec fn permanently_ignored(name: Seq<char>) -> bool {
    name == "入学教育"@
}

/// A course name that holds a fragment that the default mode leaves out.
pub open spec fn keyword_excluded(name: Seq<char>) -> bool {
    exists|i: int| 0 <= i < excluded_keywords().len() && has_infix(name, excluded_keywords()[i])
}

/// A course category that the default mode leaves out.
pub open spec fn nature_excluded(nature: Seq<char>) -> bool {
    nature == "公共选修课"@ || nature == "通识教育选修"@
}

/// Whether a course counts toward the GPA of `mode`.
pub open spec fn counts(c: CourseView, mode: GPAMode) -> bool {
    &&& !permanently_ignored(c.name)
    &&& match mode {
        GPAMode::All => true,
        GPAMode::Default => !keyword_excluded(c.name) && !nature_excluded(c.nature),
    }
}

/// The courses of `s` that count toward the GPA of `mode`, in their order.
pub open spec fn included(s: Seq<CourseView>, mode: GPAMode) -> Seq<CourseView> {
    s.filter(|c: CourseView| counts(c, mode))
}

/// `f` summed over `s`.
pub open spec fn sum_by(s: Seq<CourseView>, f: spec_fn(CourseView) -> int) -> int
    decreases s.len(),
{
    if s.len() == 0 {
        0
    } else {
        sum_by(s.drop_last(), f) + f(s.last())
    }
}

/// A course's credit in `10^-28` steps where it counts toward `mode`, else 0.
pub open spec fn credit_in(c: CourseView, mode: GPAMode) -> int {
    if counts(c, mode) {
        c.credit.units()
    } else {
        0
    }
}

/// A course's weighted point in hundredths where it counts toward `mode`, else 0.
pub open spec fn cents_in(c: CourseView, mode: GPAMode) -> int {
    if counts(c, mode) {
        c.credit_gpa.mantissa as int
    } else {
        0
    }
}

/// Total credit, in `10^-28` steps, of the courses that count toward `mode`.
pub open spec fn total_credit(s: Seq<CourseView>, mode: GPAMode) -> int {
    sum_by(s, |c: CourseView| credit_in(c, mode))
}

/// Total weighted points, in hundredths, of the courses that count toward `mode`.
pub open spec fn total_cents(s: Seq<CourseView>, mode: GPAMode) -> int {
    sum_by(s, |c: CourseView| cents_in(c, mode))
}

/// The GPA of `mode` in hundredths: total weighted points over total credit,
/// rounded half to even; 0 where the total credit is 0.
pub open spec fn gpa_cents(s: Seq<CourseView>, mode: GPAMode) -> int {
    if total_credit(s, mode) == 0 {
        0
    } else {
        round_half_even(total_cents(s, mode) * pow10(MAX_SCALE as nat), total_credit(s, mode))
    }
}

/// The totals of `s` over every course fit the arithmetic of a GPA.
pub open spec fn totals_fit(s: Seq<CourseView>) -> bool {
    &&& total_credit(s, GPAMode::All) < TOTAL_LIMIT
    &&& total_cents(s, GPAMode::All) * pow10(MAX_SCALE as nat) < TOTAL_LIMIT
}

/// Every record is well formed.
pub open spec fn all_wf(s: Seq<CourseView>) -> bool {
    forall|i: int| 0 <= i < s.len() ==> #[trigger] s[i].wf()
}

proof fn lemma_course_nonneg(c: CourseView, mode: GPAMode)
    requires
        c.wf(),
    ensures
        0 <= credit_in(c, mode) <= credit_in(c, GPAMode::All),
        0 <= cents_in(c, mode) <= cents_in(c, GPAMode::All),
{
    lemma_pow10_pos((MAX_SCALE - c.credit.scale) as nat);
    assert(c.credit.units() >= 0) by (nonlinear_arith)
        requires
            c.credit.mantissa >= 0,
            pow10((MAX_SCALE - c.credit.scale) as nat) >= 1,
            c.credit.units() == c.credit.mantissa * pow10((MAX_SCALE - c.credit.scale) as nat),
    ;
    crate::models::lemma_weighted_nonneg(c.credit, c.grade);
}

/// A prefix's totals for `mode` never exceed the whole list's totals over every course.
proof fn lemma_prefix_bounded(s: Seq<CourseView>, i: int, mode: GPAMode)
    requires
        all_wf(s),
        0 <= i <= s.len(),
    ensures
        0 <= total_credit(s.take(i), mode) <= total_credit(s, GPAMode::All),
        0 <= total_cents(s.take(i), mode) <= total_cents(s, GPAMode::All),
    decreases s.len(),
{
    if s.len() > 0 {
        lemma_course_nonneg(s.last(), mode);
        lemma_course_nonneg(s.last(), GPAMode::All);
        assert(all_wf(s.drop_last()));
        if i == s.len() {
            assert(s.take(i) =~= s);
            assert(s.drop_last().take(i - 1) =~= s.drop_last());
            lemma_prefix_bounded(s.drop_last(), i - 1, mode);
        } else {
            assert(s.drop_last().take(i) =~= s.take(i));
            lemma_prefix_bounded(s.drop_last(), i, mode);
            assert(s.drop_last().take(s.len() - 1) =~= s.drop_last());
            lemma_prefix_bounded(s.drop_last(), s.len() - 1, GPAMode::All);
        }
    }
}

/// Whether a course name is one that never counts.
pub fn is_permanently_ignored(name: &str) -> (r: bool)
    ensures
        r == permanently_ignored(name@),
{
    same_text(name, "入学教育")
}

/// Whether a course category is one that the default mode leaves out.
pub fn is_nature_excluded(nature: &str) -> (r: bool)
    ensures
        r == nature_excluded(nature@),
{
    same_text(nature, "公共选修课") || same_text(nature, "通识教育选修")
}

/// The names of the courses that never count.
pub fn permanent_ignored_courses() -> (r: Vec<&'static str>)
    ensures
        r@.len() == 1,
        permanently_ignored(r@[0]@),
{
    vec!["入学教育"]
}

/// The course categories that the default mode leaves out.
pub fn nature_exclusions() -> (r: Vec<&'static str>)
    ensures
        r@.len() == 2,
        forall|i: int| 0 <= i < 2 ==> nature_excluded(#[trigger] r@[i]@),
        forall|n: Seq<char>| nature_excluded(n) ==> n == r@[0]@ || n == r@[1]@,
{
    vec!["公共选修课", "通识教育选修"]
}

/// The name fragments of the courses that the default mode leaves out.
pub fn excluded_course_keywords() -> (r: Vec<&'static str>)
    ensures
        r@.len() == excluded_keywords().len(),
        forall|i: int| 0 <= i < r@.len() ==> #[trigger] r@[i]@ == excluded_keywords()[i],
{
    let r = vec![
        "体育", "职业生涯规划与就业指导", "大学生安全教育", "大学生心理健康教育",
        "形势与政策", "军事理论", "军事训练", "军事技能", "创新创业教育",
        "劳动教育", "专业基础认知", "毕业教育", "社会实践", "社会调研",
        "综合实训", "综合设计与展示", "职场体验", "实习", "见习",
        "名师大讲堂", "领导力", "系列讲座",
    ];
    assert(r@.len() == excluded_keywords().len());
    r
}

/// Whether a course name holds one of the fragments that the default mode leaves out.
pub fn is_keyword_excluded(name: &str) -> (r: bool)
    ensures
        r == keyword_excluded(name@),
{
    let keys = excluded_course_keywords();
    let mut i: usize = 0;
    while i < keys.len()
        invariant
            keys@.len() == excluded_keywords().len(),
            forall|k: int| 0 <= k < keys@.len() ==> #[trigger] keys@[k]@ == excluded_keywords()[k],
            i <= keys@.len(),
            forall|k: int| 0 <= k < i ==> !has_infix(name@, #[trigger] excluded_keywords()[k]),
        decreases keys@.len() - i,
    {
        if contains_text(name, keys[i]) {
            return true;
        }
        i = i + 1;
    }
    false
}

/// Whether a course counts toward the GPA of `mode`.
pub fn course_counts(c: &Course, mode: GPAMode) -> (r: bool)
    ensures
        r == counts(c@, mode),
{
    if is_permanently_ignored(c.name.as_str()) {
        return false;
    }
    match mode {
        GPAMode::All => true,
        GPAMode::Default => !is_keyword_excluded(c.name.as_str()) && !is_nature_excluded(
            c.nature.as_str(),
        ),
    }
}

/// A GPA and the courses it was computed over.
#[derive(Clone, Debug)]
pub struct GPAResult {
    pub gpa: Dec,
    pub courses: Vec<Course>,
}

/// The GPAs of both modes for one course list; the default mode only where the
/// list has course categories.
#[derive(Clone, Debug)]
pub struct ProcessedGPAResults {
    pub default: Option<GPAResult>,
    pub all: GPAResult,
}

/// `g` is the GPA of `mode` over `s`: two fractional digits, or a plain 0 where
/// no credit counts.
pub open spec fn is_gpa_of(g: Dec, s: Seq<CourseView>, mode: GPAMode) -> bool {
    &&& g.mantissa == gpa_cents(s, mode)
    &&& g.scale == if total_credit(s, mode) == 0 {
        0u32
    } else {
        2u32
    }
}

/// `r` is the result of `mode` over `s`: the courses that count, in their
/// order, and their GPA.
pub open spec fn is_result_of(r: GPAResult, s: Seq<CourseView>, mode: GPAMode) -> bool {
    &&& course_views(r.courses@) == included(s, mode)
    &&& is_gpa_of(r.gpa, s, mode)
}

/// The courses of `courses` that count toward `mode`, and their GPA: total
/// weighted points over total credit, rounded to two places, or 0 where the
/// total credit is 0.
pub fn calculate_gpa_from_list(courses: &[Course], mode: GPAMode) -> (r: (Dec, Vec<Course>))
    requires
        all_wf(course_views(courses@)),
        totals_fit(course_views(courses@)),
    ensures
        course_views(r.1@) == included(course_views(courses@), mode),
        is_gpa_of(r.0, course_views(courses@), mode),
{
    let ghost vs = course_views(courses@);
    let mut kept: Vec<Course> = Vec::new();
    let mut credit: i128 = 0;
    let mut cents: i128 = 0;
    let mut i: usize = 0;
    proof {
        lemma_pow10_max();
        assert(vs.take(0) =~= Seq::<CourseView>::empty());
        reveal(Seq::filter);
    }
    while i < courses.len()
        invariant
            vs == course_views(courses@),
            all_wf(vs),
            totals_fit(vs),
            pow10(MAX_SCALE as nat) == 10000000000000000000000000000,
            i <= courses@.len(),
            course_views(kept@) == included(vs.take(i as int), mode),
            credit == total_credit(vs.take(i as int), mode),
            cents == total_cents(vs.take(i as int), mode),
        decreases courses@.len() - i,
    {
        let c = &courses[i];
        proof {
            assert(vs[i as int] == c@);
            assert(vs[i as int].wf());
            assert(vs.take(i + 1).drop_last() =~= vs.take(i as int));
            assert(vs.take(i + 1).last() == c@);
            reveal(Seq::filter);
            lemma_prefix_bounded(vs, i + 1, mode);
            lemma_course_nonneg(c@, mode);
            lemma_prefix_bounded(vs, i as int, mode);
        }
        if course_counts(c, mode) {
            let p = pow10_exec(MAX_SCALE - c.credit.scale);
            let ghost before = kept@;
            kept.push(c.copied());
            proof {
                assert(course_views(kept@) =~= course_views(before).push(c@));
            }
            credit = credit + c.credit.mantissa * p;
            cents = cents + c.credit_gpa.mantissa;
        }
        i = i + 1;
    }
    proof {
        assert(vs.take(i as int) =~= vs);
        lemma_prefix_bounded(vs, i as int, mode);
    }
    if credit == 0 {
        return (Dec::zero(), kept);
    }
    proof {
        assert(0 <= cents * pow10(MAX_SCALE as nat) <= total_cents(vs, GPAMode::All) * pow10(
            MAX_SCALE as nat,
        )) by (nonlinear_arith)
            requires
                0 <= cents <= total_cents(vs, GPAMode::All),
                pow10(MAX_SCALE as nat) >= 1,
        ;
    }
    let g = round_half_even_exec(cents * 10000000000000000000000000000, credit);
    (Dec { mantissa: g, scale: 2 }, kept)
}

/// The GPA results of a course list: the all-courses mode always, the default
/// mode only for a list fetched from the portal.
pub fn process_scraped_course_results(courses: &[Course], source: ResultSource) -> (r:
    ProcessedGPAResults)
    requires
        all_wf(course_views(courses@)),
        totals_fit(course_views(courses@)),
    ensures
        is_result_of(r.all, course_views(courses@), GPAMode::All),
        source == ResultSource::OfficialWebsite ==> r.default is Some && is_result_of(
            r.default->0,
            course_views(courses@),
            GPAMode::Default,
        ),
        source == ResultSource::InputFile ==> r.default is None,
{
    let (gpa_all, courses_all) = calculate_gpa_from_list(courses, GPAMode::All);
    let all_result = GPAResult { gpa: gpa_all, courses: courses_all };
    let default_result = match source {
        ResultSource::OfficialWebsite => {
            let (gpa_default, courses_default) = calculate_gpa_from_list(courses, GPAMode::Default);
            Some(GPAResult { gpa: gpa_default, courses: courses_default })
        },
        ResultSource::InputFile => None,
    };
    ProcessedGPAResults { default: default_result, all: all_result }
}

/// Whether the totals of a course list fit the arithmetic of its GPA.
pub fn totals_within_limits(courses: &[Course]) -> (r: bool)
    requires
        all_wf(course_views(courses@)),
    ensures
        r == totals_fit(course_views(courses@)),
{
    let ghost vs = course_views(courses@);
    let cents_limit: i128 = (TOTAL_LIMIT - 1) / 10000000000000000000000000000;
    let mut credit: i128 = 0;
    let mut cents: i128 = 0;
    let mut i: usize = 0;
    proof {
        lemma_pow10_max();
        assert(vs.take(0) =~= Seq::<CourseView>::empty());
    }
    while i < courses.len()
        invariant
            vs == course_views(courses@),
            all_wf(vs),
            pow10(MAX_SCALE as nat) == 10000000000000000000000000000,
            cents_limit == (TOTAL_LIMIT - 1) / 10000000000000000000000000000,
            i <= courses@.len(),
            credit == total_credit(vs.take(i as int), GPAMode::All),
            cents == total_cents(vs.take(i as int), GPAMode::All),
            0 <= credit < TOTAL_LIMIT,
            0 <= cents <= cents_limit,
        decreases courses@.len() - i,
    {
        let c = &courses[i];
        proof {
            assert(vs[i as int] == c@);
            assert(vs[i as int].wf());
            assert(vs.take(i + 1).drop_last() =~= vs.take(i as int));
            assert(vs.take(i + 1).last() == c@);
            lemma_prefix_bounded(vs, i + 1, GPAMode::All);
            lemma_course_nonneg(c@, GPAMode::All);
        }
        if course_counts(c, GPAMode::All) {
            assert(0 <= c.credit_gpa.mantissa);
            let p = pow10_exec(MAX_SCALE - c.credit.scale);
            proof {
                lemma_pow10_pos((MAX_SCALE - c.credit.scale) as nat);
            }
            let room = (TOTAL_LIMIT - 1 - credit) / p;
            let ghost free: int = TOTAL_LIMIT - 1 - credit;
            let ghost m: int = c.credit.mantissa as int;
            let ghost pp: int = p as int;
            if c.credit.mantissa > room {
                proof {
                    assert(m * pp > free) by (nonlinear_arith)
                        requires
                            m > free / pp,
                            pp >= 1,
                            free >= 0,
                    ;
                }
                return false;
            }
            proof {
                assert(m * pp <= free) by (nonlinear_arith)
                    requires
                        m <= free / pp,
                        pp >= 1,
                        free >= 0,
                ;
            }
            credit = credit + c.credit.mantissa * p;
            if c.credit_gpa.mantissa > cents_limit - cents {
                proof {
                    assert(total_cents(vs, GPAMode::All) > cents_limit);
                    assert(total_cents(vs, GPAMode::All) * pow10(MAX_SCALE as nat) >= TOTAL_LIMIT)
                        by (nonlinear_arith)
                        requires
                            total_cents(vs, GPAMode::All) >= cents_limit + 1,
                            cents_limit == (TOTAL_LIMIT - 1) / 10000000000000000000000000000,
                            pow10(MAX_SCALE as nat) == 10000000000000000000000000000,
                    ;
                }
                return false;
            }
            cents = cents + c.credit_gpa.mantissa;
        }
        i = i + 1;
    }
    proof {
        assert(vs.take(i as int) =~= vs);
        assert(cents * pow10(MAX_SCALE as nat) < TOTAL_LIMIT) by (nonlinear_arith)
            requires
                cents <= cents_limit,
                cents_limit == (TOTAL_LIMIT - 1) / 10000000000000000000000000000,
                pow10(MAX_SCALE as nat) == 10000000000000000000000000000,
        ;
    }
    true
}

proof fn lemma_sum_remove(s: Seq<CourseView>, f: spec_fn(CourseView) -> int, j: int)
    requires
        0 <= j < s.len(),
    ensures
        sum_by(s, f) == sum_by(s.remove(j), f) + f(s[j]),
    decreases s.len(),
{
    if j == s.len() - 1 {
        assert(s.remove(j) =~= s.drop_last());
    } else {
        assert(s.remove(j).drop_last() =~= s.drop_last().remove(j));
        assert(s.remove(j).last() == s.last());
        lemma_sum_remove(s.drop_last(), f, j);
    }
}

proof fn lemma_sum_permutation(s1: Seq<CourseView>, s2: Seq<CourseView>, f: spec_fn(CourseView) -> int)
    requires
        s1.to_multiset() == s2.to_multiset(),
    ensures
        sum_by(s1, f) == sum_by(s2, f),
    decreases s1.len(),
{
    broadcast use vstd::seq_lib::group_to_multiset_ensures;

    if s1.len() == 0 {
        assert(s1.to_multiset().len() == 0);
        assert(s2.to_multiset().len() == s2.len());
        assert(s2 =~= Seq::<CourseView>::empty());
    } else {
        let x = s1.last();
        assert(s1 =~= s1.drop_last().push(x));
        assert(s1.to_multiset().count(x) > 0);
        assert(s2.contains(x));
        let j = choose|j: int| 0 <= j < s2.len() && s2[j] == x;
        assert(s2.remove(j).to_multiset() == s2.to_multiset().remove(x));
        assert(s1.drop_last().to_multiset() =~= s1.to_multiset().remove(x));
        lemma_sum_permutation(s1.drop_last(), s2.remove(j), f);
        lemma_sum_remove(s2, f, j);
    }
}

/// Reordering the course list changes neither mode's total credit, total
/// weighted points, nor GPA.
pub proof fn lemma_gpa_reorder(s1: Seq<CourseView>, s2: Seq<CourseView>, mode: GPAMode)
    requires
        s1.to_multiset() == s2.to_multiset(),
    ensures
        total_credit(s1, mode) == total_credit(s2, mode),
        total_cents(s1, mode) == total_cents(s2, mode),
        gpa_cents(s1, mode) == gpa_cents(s2, mode),
{
    lemma_sum_permutation(s1, s2, |c: CourseView| credit_in(c, mode));
    lemma_sum_permutation(s1, s2, |c: CourseView| cents_in(c, mode));
}

proof fn lemma_filter_counts(s: Seq<CourseView>, p: spec_fn(CourseView) -> bool, x: CourseView)
    ensures
        s.filter(p).to_multiset().count(x) == if p(x) {
            s.to_multiset().count(x)
        } else {
            0
        },
    decreases s.len(),
{
    broadcast use vstd::seq_lib::group_to_multiset_ensures;
    broadcast use vstd::multiset::group_multiset_axioms;

    reveal(Seq::filter);
    if s.len() == 0 {
        assert(s.to_multiset().count(x) == 0);
        assert(s.filter(p).to_multiset().count(x) == 0);
    } else {
        let t = s.drop_last();
        let y = s.last();
        lemma_filter_counts(t, p, x);
        assert(s =~= t.push(y));
        if p(y) {
            assert(s.filter(p) == t.filter(p).push(y));
        } else {
            assert(s.filter(p) == t.filter(p));
        }
    }
}

/// Reordering the course list reorders the courses that each mode keeps.
pub proof fn lemma_kept_reorder(s1: Seq<CourseView>, s2: Seq<CourseView>, mode: GPAMode)
    requires
        s1.to_multiset() == s2.to_multiset(),
    ensures
        included(s1, mode).to_multiset() == included(s2, mode).to_multiset(),
{
    let p = |c: CourseView| counts(c, mode);
    assert forall|x: CourseView| #[trigger] included(s1, mode).to_multiset().count(x)
        == included(s2, mode).to_multiset().count(x) by {
        lemma_filter_counts(s1, p, x);
        lemma_filter_counts(s2, p, x);
    }
    assert(included(s1, mode).to_multiset() =~= included(s2, mode).to_multiset());
}

proof fn lemma_filter_twice(s: Seq<CourseView>, pa: spec_fn(CourseView) -> bool, pd: spec_fn(CourseView) -> bool)
    requires
        forall|c: CourseView| #[trigger] pd(c) ==> pa(c),
    ensures
        s.filter(pa).filter(pd) == s.filter(pd),
    decreases s.len(),
{
    reveal(Seq::filter);
    if s.len() > 0 {
        lemma_filter_twice(s.drop_last(), pa, pd);
        let y = s.last();
        if pa(y) {
            assert(s.filter(pa).drop_last() =~= s.drop_last().filter(pa));
            assert(s.filter(pa).last() == y);
        } else {
            assert(s.filter(pa) == s.drop_last().filter(pa));
        }
    }
}

/// The default mode's courses are the all-courses mode's courses, in their
/// order, with the default rule applied once more: a subsequence of them.
pub proof fn lemma_default_subsequence(s: Seq<CourseView>)
    ensures
        included(s, GPAMode::Default) == included(s, GPAMode::All).filter(
            |c: CourseView| counts(c, GPAMode::Default),
        ),
{
    lemma_filter_twice(
        s,
        |c: CourseView| counts(c, GPAMode::All),
        |c: CourseView| counts(c, GPAMode::Default),
    );
}

/// Where no credit counts, the GPA is 0.
pub proof fn lemma_gpa_zero_credit(s: Seq<CourseView>, mode: GPAMode)
    requires
        total_credit(s, mode) == 0,
    ensures
        gpa_cents(s, mode) == 0,
{
}

/// An empty list has no credit, so its GPA is 0.
pub proof fn lemma_empty_no_credit(mode: GPAMode)
    ensures
        total_credit(Seq::<CourseView>::empty(), mode) == 0,
        gpa_cents(Seq::<CourseView>::empty(), mode) == 0,
{
}

/// Every course that the default mode keeps, the all-courses mode keeps too,
/// and neither keeps a permanently ignored course.
pub proof fn lemma_default_within_all(s: Seq<CourseView>, c: CourseView)
    ensures
        included(s, GPAMode::Default).contains(c) ==> included(s, GPAMode::All).contains(c),
        included(s, GPAMode::All).contains(c) ==> !permanently_ignored(c.name),
        included(s, GPAMode::Default).contains(c) ==> !permanently_ignored(c.name),
{
    broadcast use vstd::seq_lib::group_filter_ensures;

    let pd = |x: CourseView| counts(x, GPAMode::Default);
    let pa = |x: CourseView| counts(x, GPAMode::All);
    if included(s, GPAMode::Default).contains(c) {
        s.lemma_filter_contains_rev(pd, c);
        let i = choose|i: int| 0 <= i < s.len() && s[i] == c;
        let k = choose|k: int| 0 <= k < s.filter(pd).len() && s.filter(pd)[k] == c;
        s.lemma_filter_pred(pd, k);
        s.lemma_filter_contains(pa, i);
    }
    if included(s, GPAMode::All).contains(c) {
        let k = choose|k: int| 0 <= k < s.filter(pa).len() && s.filter(pa)[k] == c;
        s.lemma_filter_pred(pa, k);
    }
}

} // verus!
