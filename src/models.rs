//! Course records and the library's error kinds.

use vstd::prelude::*;
use crate::decimal::{
    lemma_pow10_pos, pow10, round2_mantissa, round2_parts, round_half_even, Dec, MANTISSA_LIMIT,
};
use crate::grade::is_grade_point;

verus! {

/// What a course record holds, as values.
pub struct CourseView {
    pub name: Seq<char>,
    pub nature: Seq<char>,
    pub score: Seq<char>,
    pub credit: Dec,
    pub grade: Dec,
    pub credit_gpa: Dec,
}

/// `credit × grade` rounded to two fractional digits, as a mantissa at scale 2.
pub open spec fn weighted_mantissa(credit: Dec, grade: Dec) -> int {
    round2_mantissa(credit.mantissa * grade.mantissa, (credit.scale + grade.scale) as nat)
}

/// A weighted point of a non-negative credit and a table grade point is
/// non-negative.
pub proof fn lemma_weighted_nonneg(credit: Dec, grade: Dec)
    requires
        credit.mantissa >= 0,
        is_grade_point(grade),
    ensures
        weighted_mantissa(credit, grade) >= 0,
{
    let n = credit.mantissa * grade.mantissa;
    assert(n >= 0) by (nonlinear_arith)
        requires
            credit.mantissa >= 0,
            grade.mantissa >= 0,
            n == credit.mantissa * grade.mantissa,
    ;
    let s = (credit.scale + grade.scale) as nat;
    if s > 2 {
        lemma_pow10_pos((s - 2) as nat);
        let d = pow10((s - 2) as nat);
        assert(round_half_even(n, d) >= 0) by (nonlinear_arith)
            requires
                n >= 0,
                d >= 1,
        ;
    }
}

impl CourseView {
    /// A non-negative credit, a grade point of the table, and the weighted
    /// point computed from the two.
    pub open spec fn wf(self) -> bool {
        &&& self.credit.wf()
        &&& self.credit.mantissa >= 0
        &&& is_grade_point(self.grade)
        &&& self.credit_gpa.scale == 2
        &&& self.credit_gpa.mantissa == weighted_mantissa(self.credit, self.grade)
    }
}

/// One row of a transcript.
#[derive(Clone, Debug)]
pub struct Course {
    /// Course title, the key under which repeated attempts merge.
    pub name: String,
    /// Course category; empty where the source does not give one.
    pub nature: String,
    /// The score text as given.
    pub score: String,
    pub credit: Dec,
    /// Grade point of `score`.
    pub grade: Dec,
    /// `credit × grade`, rounded to two fractional digits.
    pub credit_gpa: Dec,
}

impl View for Course {
    type V = CourseView;

    open spec fn view(&self) -> CourseView {
        CourseView {
            name: self.name@,
            nature: self.nature@,
            score: self.score@,
            credit: self.credit,
            grade: self.grade,
            credit_gpa: self.credit_gpa,
        }
    }
}

/// The values of a list of courses.
pub open spec fn course_views(v: Seq<Course>) -> Seq<CourseView> {
    v.map_values(|c: Course| c@)
}

impl Course {
    /// A record whose weighted point is `credit × grade` rounded to two places.
    pub fn new(name: String, nature: String, score: String, credit: Dec, grade: Dec) -> (r: Course)
        requires
            credit.wf(),
            credit.mantissa >= 0,
            is_grade_point(grade),
        ensures
            r@.wf(),
            r@.name == name@,
            r@.nature == nature@,
            r@.score == score@,
            r@.credit == credit,
            r@.grade == grade,
    {
        assert(0 <= credit.mantissa * grade.mantissa <= credit.mantissa * 467) by (nonlinear_arith)
            requires
                credit.mantissa >= 0,
                0 <= grade.mantissa <= 467,
        ;
        assert(MANTISSA_LIMIT * 467 < 0x0100_0000_0000_0000_0000_0000_0000_0000);
        let m = round2_parts(credit.mantissa * grade.mantissa, credit.scale + 2);
        Course { name, nature, score, credit, grade, credit_gpa: Dec { mantissa: m, scale: 2 } }
    }

    /// A copy with the same values.
    pub fn copied(&self) -> (r: Course)
        ensures
            r@ == self@,
    {
        Course {
            name: self.name.clone(),
            nature: self.nature.clone(),
            score: self.score.clone(),
            credit: self.credit,
            grade: self.grade,
            credit_gpa: self.credit_gpa,
        }
    }
}

/// Failures of the portal session.
#[derive(Debug)]
pub enum WebScrapingError {
    /// The transport failed or the portal answered with a non-success status.
    HttpRequest(String),
    /// The portal set no session cookie.
    CookieInvalid,
    /// The portal refused the credentials.
    LoginFailed,
    /// A value could not be read where the protocol needs it.
    ParseError(String),
}

/// Failures of the spreadsheet path.
#[derive(Debug)]
pub enum FileError {
    OpenError(String),
    NoValidDataFound,
}

/// Failures of the local web service.
#[derive(Debug)]
pub enum WebError {
    TemplateError(String),
    WebScrapingError(WebScrapingError),
    FileError(FileError),
    SessionError(String),
    InternalError(String),
}

fn joined(a: &str, b: &str) -> (r: String)
    ensures
        r@ == a@ + b@,
{
    let mut r = String::from_str(a);
    r.append(b);
    r
}

/// The text shown for a session failure.
pub open spec fn scraping_message(e: WebScrapingError) -> Seq<char> {
    match e {
        WebScrapingError::HttpRequest(m) => "HTTP 请求失败: "@ + m@,
        WebScrapingError::CookieInvalid => "Cookie无效或不存在。"@,
        WebScrapingError::LoginFailed => "登录失败"@,
        WebScrapingError::ParseError(m) => "解析异常: "@ + m@,
    }
}

/// The text shown for an upload failure.
pub open spec fn file_message(e: FileError) -> Seq<char> {
    match e {
        FileError::OpenError(m) => "无法打开或解析上传的文件: "@ + m@,
        FileError::NoValidDataFound => "上传的文件中未找到有效的课程数据, 请检查文件内容和格式是否正确。"@,
    }
}

impl WebScrapingError {
    /// The text shown for this failure.
    pub fn message(&self) -> (r: String)
        ensures
            r@ == scraping_message(*self),
    {
        match self {
            WebScrapingError::HttpRequest(m) => joined("HTTP 请求失败: ", m.as_str()),
            WebScrapingError::CookieInvalid => String::from_str("Cookie无效或不存在。"),
            WebScrapingError::LoginFailed => String::from_str("登录失败"),
            WebScrapingError::ParseError(m) => joined("解析异常: ", m.as_str()),
        }
    }
}

impl FileError {
    /// The text shown for this failure.
    pub fn message(&self) -> (r: String)
        ensures
            r@ == file_message(*self),
    {
        match self {
            FileError::OpenError(m) => joined("无法打开或解析上传的文件: ", m.as_str()),
            FileError::NoValidDataFound => String::from_str(
                "上传的文件中未找到有效的课程数据, 请检查文件内容和格式是否正确。",
            ),
        }
    }
}

impl WebError {
    /// The HTTP status that answers this failure: 401 for refused credentials,
    /// 400 for a bad upload, 500 for the rest.
    pub fn status_code(&self) -> (r: u16)
        ensures
            r == match self {
                WebError::WebScrapingError(WebScrapingError::LoginFailed) => 401u16,
                WebError::FileError(_) => 400u16,
                _ => 500u16,
            },
    {
        match self {
            WebError::WebScrapingError(WebScrapingError::LoginFailed) => 401,
            WebError::FileError(_) => 400,
            _ => 500,
        }
    }

    /// The text of the response that answers this failure.
    pub fn response_message(&self) -> (r: String)
        ensures
            r@ == match self {
                WebError::TemplateError(m) => "模板错误: "@ + m@,
                WebError::WebScrapingError(e) => scraping_message(*e),
                WebError::FileError(e) => file_message(*e),
                WebError::SessionError(m) => "会话错误: "@ + m@,
                WebError::InternalError(m) => "内部错误: "@ + m@,
            },
    {
        match self {
            WebError::TemplateError(m) => joined("模板错误: ", m.as_str()),
            WebError::WebScrapingError(e) => e.message(),
            WebError::FileError(e) => e.message(),
            WebError::SessionError(m) => joined("会话错误: ", m.as_str()),
            WebError::InternalError(m) => joined("内部错误: ", m.as_str()),
        }
    }
}

} // verus!
