use gpa_calc::models::{WebError, WebScrapingError, FileError};
use gpa_calc::session::{b64_encode, encode_inp, header_value_ok, status_text, AAOWebsite, HttpMethod, Stage};
use gpa_calc::logging::{format_log_msg, log_line};
use gpa_calc::forms::CalculateMode;
use gpa_calc::gpa::GPAMode;
use gpa_calc::text::{contains_text, trim_text};
use gpa_calc::extract::courses_from_page;

fn header(site: &AAOWebsite, name: &str) -> Option<String> {
    site.headers().into_iter().find(|f| f.name == name).map(|f| f.value)
}

fn logged_in() -> AAOWebsite {
    let mut site = AAOWebsite::new();
    site.init(200, 1).expect("init");
    site.login(200, "http://yitjw.yinghuaonline.com/yjlgxy_jsxsd/framework/xsMain.jsp", "<html>welcome</html>")
        .expect("login");
    site
}

#[test]
fn base64_of_credentials() {
    assert_eq!(b64_encode("abc"), "YWJj");
    assert_eq!(b64_encode("user"), "dXNlcg==");
    assert_eq!(encode_inp("学生"), "5a2m55Sf");
    assert_eq!(b64_encode(""), "");
}

#[test]
fn fresh_session_headers() {
    let site = AAOWebsite::new();
    assert_eq!(site.stage(), Stage::Unstarted);
    assert_eq!(header(&site, "Accept").as_deref(), Some("*/*"));
    assert_eq!(header(&site, "Content-Type").as_deref(), Some("application/x-www-form-urlencoded"));
    let req = site.init_request();
    assert_eq!(req.method, HttpMethod::Get);
    assert_eq!(req.url, "http://yitjw.yinghuaonline.com/yjlgxy_jsxsd");
    assert_eq!(req.headers.len(), 3);
    assert!(req.form.is_empty());
}

#[test]
fn init_outcomes() {
    let mut site = AAOWebsite::new();
    assert!(matches!(site.init(500, 1), Err(WebScrapingError::HttpRequest(_))));
    assert_eq!(site.stage(), Stage::Unstarted);
    assert!(matches!(site.init(200, 0), Err(WebScrapingError::CookieInvalid)));
    assert_eq!(site.stage(), Stage::Unstarted);
    assert!(site.init(204, 2).is_ok());
    assert_eq!(site.stage(), Stage::CookieAcquired);
    assert_eq!(header(&site, "Referer").as_deref(), Some("http://yitjw.yinghuaonline.com/yjlgxy_jsxsd"));
    assert_eq!(site.headers().len(), 3);
}

#[test]
fn login_request_carries_token() {
    let mut site = AAOWebsite::new();
    site.init(200, 1).unwrap();
    let req = site.login_request("user", "pass");
    assert_eq!(req.method, HttpMethod::Post);
    assert_eq!(req.url, "http://yitjw.yinghuaonline.com/yjlgxy_jsxsd/xk/LoginToXk");
    assert_eq!(req.form.len(), 1);
    assert_eq!(req.form[0].name, "encoded");
    assert_eq!(req.form[0].value, "dXNlcg==%%%cGFzcw==");
}

#[test]
fn login_rejected_by_marker() {
    let mut site = AAOWebsite::new();
    site.init(200, 1).unwrap();
    let body = "<form action=\"/yjlgxy_jsxsd/xk/LoginToXk\" method=\"post\">";
    let r = site.login(200, "http://yitjw.yinghuaonline.com/yjlgxy_jsxsd/xk/LoginToXk", body);
    assert!(matches!(r, Err(WebScrapingError::LoginFailed)));
    assert_eq!(site.stage(), Stage::CookieAcquired);
    assert_eq!(header(&site, "X-Requested-With"), None);
}

#[test]
fn login_bad_status() {
    let mut site = AAOWebsite::new();
    site.init(200, 1).unwrap();
    assert!(matches!(site.login(302, "http://x", "ok"), Err(WebScrapingError::HttpRequest(_))));
    assert!(matches!(site.login(200, "http://x\n", "ok"), Err(WebScrapingError::ParseError(_))));
    assert_eq!(site.stage(), Stage::CookieAcquired);
}

#[test]
fn login_success_sets_headers() {
    let site = logged_in();
    assert_eq!(site.stage(), Stage::Authenticated);
    assert_eq!(
        header(&site, "Referer").as_deref(),
        Some("http://yitjw.yinghuaonline.com/yjlgxy_jsxsd/framework/xsMain.jsp")
    );
    assert_eq!(header(&site, "X-Requested-With").as_deref(), Some("XMLHttpRequest"));
    assert_eq!(site.headers().len(), 4);
}

#[test]
fn grades_request_form() {
    let site = logged_in();
    let req = site.grades_request();
    assert_eq!(req.url, "http://yitjw.yinghuaonline.com/yjlgxy_jsxsd/kscj/cjcx_list");
    let form: Vec<(String, String)> = req.form.into_iter().map(|f| (f.name, f.value)).collect();
    assert_eq!(
        form,
        vec![
            ("kksj".to_string(), "".to_string()),
            ("kcxz".to_string(), "".to_string()),
            ("kcmc".to_string(), "".to_string()),
            ("xsfs".to_string(), "all".to_string()),
        ]
    );
    assert_eq!(req.headers.len(), 4);
}

fn html_row(cells: &[&str]) -> String {
    let tds: String = cells.iter().map(|c| format!("<td>{}</td>", c)).collect();
    format!("<tr>{}</tr>", tds)
}

#[test]
fn grades_page_parsed() {
    let site = logged_in();
    let row = |name: &str, score: &str, credit: &str, nature: &str| {
        html_row(&["1", "2024", "K1", name, score, "", credit, "32", "", "", "", nature])
    };
    let page = format!(
        "<html><body><table><tr><th>序号</th></tr>{}{}{}{}</table></body></html>",
        row("高等数学", "92", "4", "必修"),
        row("高等数学", "<span>95</span>", "4", "必修"),
        row("体育Ⅰ", "良", "1", "必修"),
        html_row(&["总计", "", ""]),
    );
    let courses = site.get_grades(200, &page).ok().expect("page parsed");
    assert_eq!(courses.len(), 2);
    assert_eq!(courses[0].name, "高等数学");
    assert_eq!(courses[0].grade.mantissa, 467);
    assert_eq!(courses[1].name, "体育Ⅰ");
    assert_eq!(courses[1].nature, "必修");
    assert!(matches!(site.get_grades(404, &page), Err(WebScrapingError::HttpRequest(_))));
    assert!(courses_from_page("").is_empty());
    assert!(courses_from_page("<table><tr><td>h</td></tr></table>").is_empty());
    assert!(site.get_grades(200, "<p>no table</p>").ok().expect("empty page").is_empty());
}

#[test]
fn grades_page_keeps_best_attempt_either_order() {
    let site = logged_in();
    let row = |score: &str, nature: &str| html_row(&["1", "t", "k", "Law", score, "", "3", "", "", "", "", nature]);
    for (first, second) in [("68", "80"), ("80", "68")] {
        let page = format!(
            "<table><tr><th>h</th></tr>{}{}</table>",
            row(first, if first == "80" { "best" } else { "other" }),
            row(second, if second == "80" { "best" } else { "other" })
        );
        let courses = site.get_grades(200, &page).ok().expect("success status gives courses");
        assert_eq!(courses.len(), 1);
        assert_eq!(courses[0].grade.mantissa, 333);
        assert_eq!(courses[0].score, "80");
        assert_eq!(courses[0].nature, "best");
    }
}

#[test]
fn header_values() {
    assert!(header_value_ok("http://example.com/a?b=c"));
    assert!(header_value_ok("tab\there"));
    assert!(header_value_ok("非ASCII"));
    assert!(!header_value_ok("line\nbreak"));
    assert!(!header_value_ok("del\u{7f}"));
}

#[test]
fn status_texts() {
    assert_eq!(status_text(0), "0");
    assert_eq!(status_text(404), "404");
    assert_eq!(status_text(65535), "65535");
}

#[test]
fn text_helpers() {
    assert_eq!(trim_text("  \t高等数学 \u{3000}"), "高等数学");
    assert_eq!(trim_text("   "), "");
    assert!(contains_text("大学体育Ⅱ", "体育"));
    assert!(!contains_text("体", "体育"));
    assert!(contains_text("abc", ""));
}

#[test]
fn log_lines() {
    assert_eq!(log_line("2024-01-01 00:00:00.000000", "hi"), "[2024-01-01 00:00:00.000000]hi");
    let line = format_log_msg("started");
    assert!(line.starts_with('['));
    assert!(line.ends_with("]started"));
    assert!(line.len() > "[]started".len());
}

#[test]
fn error_responses() {
    let e = WebError::WebScrapingError(WebScrapingError::LoginFailed);
    assert_eq!(e.status_code(), 401);
    assert_eq!(e.response_message(), "登录失败");
    let e = WebError::WebScrapingError(WebScrapingError::CookieInvalid);
    assert_eq!(e.status_code(), 500);
    let e = WebError::FileError(FileError::NoValidDataFound);
    assert_eq!(e.status_code(), 400);
    let e = WebError::InternalError("boom".to_string());
    assert_eq!(e.status_code(), 500);
    assert_eq!(e.response_message(), "内部错误: boom");
    let e = WebError::TemplateError("t".to_string());
    assert_eq!(e.response_message(), "模板错误: t");
    assert_eq!(WebScrapingError::HttpRequest("x".to_string()).message(), "HTTP 请求失败: x");
    assert_eq!(WebScrapingError::ParseError("y".to_string()).message(), "解析异常: y");
    assert_eq!(FileError::OpenError("z".to_string()).message(), "无法打开或解析上传的文件: z");
}

#[test]
fn calculate_modes() {
    assert_eq!(CalculateMode { mode: "all".to_string() }.gpa_mode(), GPAMode::All);
    assert_eq!(CalculateMode { mode: "default".to_string() }.gpa_mode(), GPAMode::Default);
    assert_eq!(CalculateMode { mode: "ALL".to_string() }.gpa_mode(), GPAMode::Default);
}
