//! The portal's login protocol as a state machine: each step says which
//! request to send and judges the response that came back.

use vstd::prelude::*;
use vstd::string::*;
use vstd::utf8::encode_utf8;
use base64::Engine as _;
use crate::extract::{courses_from_page, page_courses};
use crate::gpa::all_wf;
use crate::models::{course_views, Course, WebScrapingError};
use crate::text::{contains_text, has_infix, same_text};

verus! {

/// The standard base64 alphabet.
pub open spec fn b64_alphabet() -> Seq<char> {
    "ABCDEFGHIJKLMNOPQRSTUVWXYZabcdefghijklmnopqrstuvwxyz0123456789+/"@
}

/// Standard base64 of `b`: each group of three bytes gives four characters of
/// six bits each; a last group of one or two bytes is padded with `=`.
pub open spec fn base64_bytes(b: Seq<u8>) -> Seq<char>
    decreases b.len(),
{
    let a = b64_alphabet();
    if b.len() == 0 {
        Seq::empty()
    } else if b.len() == 1 {
        let n = b[0] as int;
        seq![a[n / 4], a[(n % 4) * 16], '=', '=']
    } else if b.len() == 2 {
        let n = b[0] as int * 256 + b[1] as int;
        seq![a[n / 1024], a[(n / 16) % 64], a[(n % 16) * 4], '=']
    } else {
        let n = b[0] as int * 65536 + b[1] as int * 256 + b[2] as int;
        seq![a[n / 262144], a[(n / 4096) % 64], a[(n / 64) % 64], a[n % 64]] + base64_bytes(
            b.subrange(3, b.len() as int),
        )
    }
}

proof fn lemma_alphabet_no_percent(i: int)
    requires
        0 <= i < 64,
    ensures
        b64_alphabet()[i] != '%',
{
    reveal_strlit("ABCDEFGHIJKLMNOPQRSTUVWXYZabcdefghijklmnopqrstuvwxyz0123456789+/");
}

/// Base64 text never holds `%`, so the `%%%` joining two encodings can be found again.
pub proof fn lemma_base64_no_percent(b: Seq<u8>)
    ensures
        !base64_bytes(b).contains('%'),
    decreases b.len(),
{
    let a = b64_alphabet();
    let r = base64_bytes(b);
    if b.len() == 1 {
        let n = b[0] as int;
        lemma_alphabet_no_percent(n / 4);
        lemma_alphabet_no_percent((n % 4) * 16);
        assert(forall|k: int| 0 <= k < 4 ==> r[k] != '%');
    } else if b.len() == 2 {
        let n = b[0] as int * 256 + b[1] as int;
        lemma_alphabet_no_percent(n / 1024);
        lemma_alphabet_no_percent((n / 16) % 64);
        lemma_alphabet_no_percent((n % 16) * 4);
        assert(forall|k: int| 0 <= k < 4 ==> r[k] != '%');
    } else if b.len() >= 3 {
        let n = b[0] as int * 65536 + b[1] as int * 256 + b[2] as int;
        lemma_alphabet_no_percent(n / 262144);
        lemma_alphabet_no_percent((n / 4096) % 64);
        lemma_alphabet_no_percent((n / 64) % 64);
        lemma_alphabet_no_percent(n % 64);
        let rest = b.subrange(3, b.len() as int);
        lemma_base64_no_percent(rest);
        let head = seq![a[n / 262144], a[(n / 4096) % 64], a[(n / 64) % 64], a[n % 64]];
        assert(r == head + base64_bytes(rest));
        assert forall|k: int| 0 <= k < r.len() implies r[k] != '%' by {
            if k >= 4 {
                assert(r[k] == base64_bytes(rest)[k - 4]);
            }
        }
    }
}

/// Standard base64 of the UTF-8 bytes of a text.
pub open spec fn base64_of(text: Seq<char>) -> Seq<char> {
    base64_bytes(encode_utf8(text))
}

/// Relies on `base64::engine::general_purpose::STANDARD.encode`: the standard
/// alphabet with `=` padding, four characters for each started group of three bytes.
#[verifier::external_body]
pub fn b64_encode(text: &str) -> (r: String)
    ensures
        r@ == base64_of(text@),
        r@.len() == 4 * ((text.spec_bytes().len() + 2) / 3),
{
    base64::engine::general_purpose::STANDARD.encode(text)
}

/// The same encoding as `b64_encode`.
pub fn encode_inp(text: &str) -> (r: String)
    ensures
        r@ == base64_of(text@),
{
    b64_encode(text)
}

/// Where the protocol stands.
#[derive(Clone, Copy, Debug, PartialEq, Eq, Structural)]
pub enum Stage {
    Unstarted,
    CookieAcquired,
    Authenticated,
}

#[derive(Clone, Copy, Debug, PartialEq, Eq, Structural)]
pub enum HttpMethod {
    Get,
    Post,
}

/// A name and a value, of a header or of a form field.
#[derive(Clone, Debug)]
pub struct Field {
    pub name: String,
    pub value: String,
}

impl View for Field {
    type V = (Seq<char>, Seq<char>);

    open spec fn view(&self) -> (Seq<char>, Seq<char>) {
        (self.name@, self.value@)
    }
}

/// The values of a list of fields.
pub open spec fn fields_view(v: Seq<Field>) -> Seq<(Seq<char>, Seq<char>)> {
    v.map_values(|f: Field| f@)
}

/// A request for the transport to send.
#[derive(Clone, Debug)]
pub struct HttpRequest {
    pub method: HttpMethod,
    pub url: String,
    pub headers: Vec<Field>,
    /// The form-encoded body; empty for a GET.
    pub form: Vec<Field>,
}

/// The portal's origin.
pub open spec fn base_url() -> Seq<char> {
    "http://yitjw.yinghuaonline.com/yjlgxy_jsxsd"@
}

/// The credential endpoint.
pub open spec fn login_url() -> Seq<char> {
    base_url() + "/xk/LoginToXk"@
}

/// The grades listing endpoint.
pub open spec fn grades_url() -> Seq<char> {
    base_url() + "/kscj/cjcx_list"@
}

/// What the login endpoint echoes in its body when it refuses the credentials.
pub open spec fn login_failure_marker() -> Seq<char> {
    "/yjlgxy_jsxsd/xk/LoginToXk"@
}

/// The headers of a fresh session.
pub open spec fn initial_headers() -> Seq<(Seq<char>, Seq<char>)> {
    seq![
        ("Referer"@, "http://yitjw.yinghuaonline.com/yjlgxy_jsxsd/kscj/cjcx_query?Ves632DSdyV=NEW_XSD_XJCJ"@),
        ("Content-Type"@, "application/x-www-form-urlencoded"@),
        ("Accept"@, "*/*"@),
    ]
}

/// `k` is the first position in `h` of header `name`.
pub open spec fn first_header(h: Seq<(Seq<char>, Seq<char>)>, name: Seq<char>, k: int) -> bool {
    &&& 0 <= k < h.len()
    &&& h[k].0 == name
    &&& forall|j: int| 0 <= j < k ==> h[j].0 != name
}

/// `h` with header `name` set to `value`: replaced where present, else appended.
pub open spec fn with_header(h: Seq<(Seq<char>, Seq<char>)>, name: Seq<char>, value: Seq<char>) -> Seq<
    (Seq<char>, Seq<char>),
> {
    if exists|k: int| first_header(h, name, k) {
        let k = choose|k: int| first_header(h, name, k);
        h.update(k, (name, value))
    } else {
        h.push((name, value))
    }
}

proof fn lemma_first_header_unique(h: Seq<(Seq<char>, Seq<char>)>, name: Seq<char>, k: int)
    requires
        first_header(h, name, k),
    ensures
        (choose|j: int| first_header(h, name, j)) == k,
{
    let j = choose|j: int| first_header(h, name, j);
    assert(first_header(h, name, j));
    if j < k {
        assert(h[j].0 != name);
    } else if j > k {
        assert(h[k].0 != name);
    }
}

/// The credential token: each part base64-encoded, joined by `%%%`.
pub open spec fn credential_token(username: Seq<char>, password: Seq<char>) -> Seq<char> {
    base64_of(username) + "%%%"@ + base64_of(password)
}

/// The form of the grades listing: every term, every category, every course.
pub open spec fn grades_form() -> Seq<(Seq<char>, Seq<char>)> {
    seq![("kksj"@, ""@), ("kcxz"@, ""@), ("kcmc"@, ""@), ("xsfs"@, "all"@)]
}

/// A success status, 200 to 299.
pub open spec fn is_success(status: u16) -> bool {
    200 <= status < 300
}

/// A byte that a header value may hold: visible, or a tab.
pub open spec fn header_byte_ok(b: u8) -> bool {
    (b >= 32 && b != 127) || b == 9
}

/// Text that a header value may hold.
pub open spec fn header_text_ok(s: &str) -> bool {
    forall|i: int| 0 <= i < s.spec_bytes().len() ==> header_byte_ok(#[trigger] s.spec_bytes()[i])
}

/// Whether `s` can stand as a header value.
pub fn header_value_ok(s: &str) -> (r: bool)
    ensures
        r == header_text_ok(s),
{
    let b = s.as_bytes();
    let mut i: usize = 0;
    while i < b.len()
        invariant
            b@ == s.spec_bytes(),
            i <= b@.len(),
            forall|k: int| 0 <= k < i ==> header_byte_ok(#[trigger] b@[k]),
        decreases b@.len() - i,
    {
        let c = b[i];
        if !((c >= 32 && c != 127) || c == 9) {
            return false;
        }
        i = i + 1;
    }
    true
}

/// The text of one decimal digit.
pub open spec fn digit_text(d: int) -> Seq<char> {
    if d == 0 {
        "0"@
    } else if d == 1 {
        "1"@
    } else if d == 2 {
        "2"@
    } else if d == 3 {
        "3"@
    } else if d == 4 {
        "4"@
    } else if d == 5 {
        "5"@
    } else if d == 6 {
        "6"@
    } else if d == 7 {
        "7"@
    } else if d == 8 {
        "8"@
    } else {
        "9"@
    }
}

/// The decimal text of `n`.
pub open spec fn decimal_text_of(n: nat) -> Seq<char>
    decreases n,
{
    if n < 10 {
        digit_text(n as int)
    } else {
        decimal_text_of(n / 10) + digit_text((n % 10) as int)
    }
}

fn digit_str(d: u16) -> (r: &'static str)
    requires
        d < 10,
    ensures
        r@ == digit_text(d as int),
{
    match d {
        0 => "0",
        1 => "1",
        2 => "2",
        3 => "3",
        4 => "4",
        5 => "5",
        6 => "6",
        7 => "7",
        8 => "8",
        _ => "9",
    }
}

/// The decimal text of a status code.
pub fn status_text(n: u16) -> (r: String)
    ensures
        r@ == decimal_text_of(n as nat),
    decreases n,
{
    if n < 10 {
        String::from_str(digit_str(n))
    } else {
        joined(status_text(n / 10).as_str(), digit_str(n % 10))
    }
}

/// The state of one login attempt at the portal.
pub struct AAOWebsite {
    base_url: String,
    headers: Vec<Field>,
    stage: Stage,
}

/// The values of a session.
pub struct SessionView {
    pub base_url: Seq<char>,
    pub headers: Seq<(Seq<char>, Seq<char>)>,
    pub stage: Stage,
}

impl View for AAOWebsite {
    type V = SessionView;

    closed spec fn view(&self) -> SessionView {
        SessionView {
            base_url: self.base_url@,
            headers: fields_view(self.headers@),
            stage: self.stage,
        }
    }
}

fn field(name: &str, value: &str) -> (r: Field)
    ensures
        r@ == (name@, value@),
{
    Field { name: String::from_str(name), value: String::from_str(value) }
}

fn joined(a: &str, b: &str) -> (r: String)
    ensures
        r@ == a@ + b@,
{
    let mut r = String::from_str(a);
    r.append(b);
    r
}

impl AAOWebsite {
    /// A fresh session at the portal's origin with its first headers.
    pub fn new() -> (r: AAOWebsite)
        ensures
            r@.stage == Stage::Unstarted,
            r@.base_url == base_url(),
            r@.headers == initial_headers(),
    {
        let mut headers: Vec<Field> = Vec::new();
        headers.push(
            field(
                "Referer",
                "http://yitjw.yinghuaonline.com/yjlgxy_jsxsd/kscj/cjcx_query?Ves632DSdyV=NEW_XSD_XJCJ",
            ),
        );
        headers.push(field("Content-Type", "application/x-www-form-urlencoded"));
        headers.push(field("Accept", "*/*"));
        let r = AAOWebsite {
            base_url: String::from_str("http://yitjw.yinghuaonline.com/yjlgxy_jsxsd"),
            headers,
            stage: Stage::Unstarted,
        };
        assert(r@.headers =~= initial_headers());
        r
    }

    pub fn stage(&self) -> (r: Stage)
        ensures
            r == self@.stage,
    {
        self.stage
    }

    /// The current headers.
    pub fn headers(&self) -> (r: Vec<Field>)
        ensures
            fields_view(r@) == self@.headers,
    {
        let mut r: Vec<Field> = Vec::new();
        let mut i: usize = 0;
        while i < self.headers.len()
            invariant
                i <= self.headers@.len(),
                fields_view(r@) == fields_view(self.headers@).take(i as int),
            decreases self.headers@.len() - i,
        {
            let ghost before = r@;
            r.push(field(self.headers[i].name.as_str(), self.headers[i].value.as_str()));
            proof {
                assert(fields_view(self.headers@)[i as int] == self.headers@[i as int]@);
                assert(fields_view(r@) =~= fields_view(before).push(self.headers@[i as int]@));
                assert(fields_view(r@) =~= fields_view(self.headers@).take(i + 1));
            }
            i = i + 1;
        }
        proof {
            assert(fields_view(self.headers@).take(i as int) =~= fields_view(self.headers@));
        }
        r
    }

    /// The request that opens the session: a GET of the origin.
    pub fn init_request(&self) -> (r: HttpRequest)
        ensures
            r.method == HttpMethod::Get,
            r.url@ == self@.base_url,
            fields_view(r.headers@) == self@.headers,
            r.form@.len() == 0,
    {
        HttpRequest {
            method: HttpMethod::Get,
            url: String::from_str(self.base_url.as_str()),
            headers: self.headers(),
            form: Vec::new(),
        }
    }

    /// Judges the answer to `init_request`: a success status that sets at
    /// least one cookie moves on, with the origin as the next Referer.
    pub fn init(&mut self, status: u16, cookie_count: usize) -> (r: Result<(), WebScrapingError>)
        requires
            old(self)@.stage == Stage::Unstarted,
        ensures
            !is_success(status) ==> r is Err && r->Err_0 is HttpRequest && final(self)@ == old(
                self,
            )@,
            is_success(status) && cookie_count == 0 ==> r is Err && r->Err_0 is CookieInvalid
                && final(self)@ == old(self)@,
            is_success(status) && cookie_count > 0 ==> r is Ok && final(self)@ == (SessionView {
                base_url: old(self)@.base_url,
                headers: with_header(old(self)@.headers, "Referer"@, old(self)@.base_url),
                stage: Stage::CookieAcquired,
            }),
    {
        if !(200 <= status && status < 300) {
            let message = joined("初始化失败: ", status_text(status).as_str());
            return Err(WebScrapingError::HttpRequest(message));
        }
        if cookie_count == 0 {
            return Err(WebScrapingError::CookieInvalid);
        }
        let url = String::from_str(self.base_url.as_str());
        self.set_header("Referer", url.as_str());
        self.stage = Stage::CookieAcquired;
        Ok(())
    }

    /// The credential request: a form POST of the encoded credentials to the
    /// login endpoint.
    pub fn login_request(&self, username: &str, password: &str) -> (r: HttpRequest)
        ensures
            r.method == HttpMethod::Post,
            r.url@ == self@.base_url + "/xk/LoginToXk"@,
            fields_view(r.headers@) == self@.headers,
            fields_view(r.form@) == seq![("encoded"@, credential_token(username@, password@))],
    {
        let token = joined(joined(b64_encode(username).as_str(), "%%%").as_str(), b64_encode(password).as_str());
        let mut form: Vec<Field> = Vec::new();
        form.push(field("encoded", token.as_str()));
        assert(fields_view(form@) =~= seq![("encoded"@, credential_token(username@, password@))]);
        HttpRequest {
            method: HttpMethod::Post,
            url: joined(self.base_url.as_str(), "/xk/LoginToXk"),
            headers: self.headers(),
            form,
        }
    }

    /// Judges the answer to `login_request`, given its status, the URL it
    /// finally came from, and its body. A success status whose body does not
    /// echo the login endpoint moves on, with that URL as the next Referer and
    /// the XMLHttpRequest marker set.
    pub fn login(&mut self, status: u16, final_url: &str, body: &str) -> (r: Result<
        (),
        WebScrapingError,
    >)
        requires
            old(self)@.stage == Stage::CookieAcquired,
        ensures
            !is_success(status) ==> r is Err && r->Err_0 is HttpRequest,
            is_success(status) && has_infix(body@, login_failure_marker()) ==> r is Err
                && r->Err_0 is LoginFailed,
            is_success(status) && !has_infix(body@, login_failure_marker()) && !header_text_ok(
                final_url,
            ) ==> r is Err && r->Err_0 is ParseError,
            r is Err ==> final(self)@ == old(self)@,
            r is Ok <==> is_success(status) && !has_infix(body@, login_failure_marker())
                && header_text_ok(final_url),
            r is Ok ==> final(self)@ == (SessionView {
                base_url: old(self)@.base_url,
                headers: with_header(
                    with_header(old(self)@.headers, "Referer"@, final_url@),
                    "X-Requested-With"@,
                    "XMLHttpRequest"@,
                ),
                stage: Stage::Authenticated,
            }),
    {
        if !(200 <= status && status < 300) {
            return Err(
                WebScrapingError::HttpRequest(String::from_str("登录失败，请检查账号和密码是否正确。")),
            );
        }
        if contains_text(body, "/yjlgxy_jsxsd/xk/LoginToXk") {
            return Err(WebScrapingError::LoginFailed);
        }
        if !header_value_ok(final_url) {
            return Err(WebScrapingError::ParseError(String::from_str("Referer")));
        }
        self.set_header("Referer", final_url);
        self.set_header("X-Requested-With", "XMLHttpRequest");
        self.stage = Stage::Authenticated;
        Ok(())
    }

    /// The grades request: a form POST to the grades listing that asks for
    /// every term, category and course.
    pub fn grades_request(&self) -> (r: HttpRequest)
        ensures
            r.method == HttpMethod::Post,
            r.url@ == self@.base_url + "/kscj/cjcx_list"@,
            fields_view(r.headers@) == self@.headers,
            fields_view(r.form@) == grades_form(),
    {
        let mut form: Vec<Field> = Vec::new();
        form.push(field("kksj", ""));
        form.push(field("kcxz", ""));
        form.push(field("kcmc", ""));
        form.push(field("xsfs", "all"));
        assert(fields_view(form@) =~= grades_form());
        HttpRequest {
            method: HttpMethod::Post,
            url: joined(self.base_url.as_str(), "/kscj/cjcx_list"),
            headers: self.headers(),
            form,
        }
    }

    /// Judges the answer to `grades_request`: on a success status, the
    /// courses of the page, merged by name.
    pub fn get_grades(&self, status: u16, body: &str) -> (r: Result<Vec<Course>, WebScrapingError>)
        requires
            self@.stage == Stage::Authenticated,
        ensures
            !is_success(status) ==> r is Err && r->Err_0 is HttpRequest,
            is_success(status) ==> r is Ok && course_views(r->Ok_0@) == page_courses(body@)
                && all_wf(course_views(r->Ok_0@)),
    {
        if !(200 <= status && status < 300) {
            let message = joined(
                joined(joined("无法访问", self.base_url.as_str()).as_str(), "/kscj/cjcx_list：").as_str(),
                status_text(status).as_str(),
            );
            return Err(WebScrapingError::HttpRequest(message));
        }
        Ok(courses_from_page(body))
    }

    /// Sets header `name` to `value`, replacing an earlier value.
    fn set_header(&mut self, name: &str, value: &str)
        ensures
            final(self)@.headers == with_header(old(self)@.headers, name@, value@),
            final(self)@.base_url == old(self)@.base_url,
            final(self)@.stage == old(self)@.stage,
    {
        let ghost h = old(self)@.headers;
        let mut k: usize = 0;
        while k < self.headers.len()
            invariant
                h == fields_view(self.headers@),
                h == old(self)@.headers,
                self.base_url == old(self).base_url,
                self.stage == old(self).stage,
                k <= self.headers@.len(),
                forall|j: int| 0 <= j < k ==> h[j].0 != name@,
            decreases self.headers@.len() - k,
        {
            proof {
                assert(h[k as int] == self.headers@[k as int]@);
            }
            if same_text(self.headers[k].name.as_str(), name) {
                proof {
                    assert(first_header(h, name@, k as int));
                    lemma_first_header_unique(h, name@, k as int);
                }
                self.headers.set(k, field(name, value));
                proof {
                    assert(fields_view(self.headers@) =~= h.update(k as int, (name@, value@)));
                }
                return;
            }
            k = k + 1;
        }
        proof {
            assert(!exists|j: int| first_header(h, name@, j));
        }
        self.headers.push(field(name, value));
        proof {
            assert(fields_view(self.headers@) =~= h.push((name@, value@)));
        }
    }
}

} // verus!
