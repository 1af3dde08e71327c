use vstd::prelude::*;
use vstd::string::StringExecFns;

use crate::text::{all_digits, decimal_value};


verus! {

/// Why a proxied request failed.
#[derive(Debug, PartialEq, Eq)]
pub enum AppError {
    /// The client's request cannot be served.
    InvalidRequest(String),
    /// The upstream answered with a status outside 2xx, and this body.
    UpstreamApi(u16, String),
    /// The upstream could not be reached or read.
    Network(String),
    /// The proxy itself failed.
    Proxy(String),
}

pub enum AppErrorView {
    InvalidRequest(Seq<char>),
    UpstreamApi(u16, Seq<char>),
    Network(Seq<char>),
    Proxy(Seq<char>),
}

impl View for AppError {
    type V = AppErrorView;

    open spec fn view(&self) -> AppErrorView {
        match self {
            AppError::InvalidRequest(m) => AppErrorView::InvalidRequest(m@),
            AppError::UpstreamApi(s, m) => AppErrorView::UpstreamApi(*s, m@),
            AppError::Network(m) => AppErrorView::Network(m@),
            AppError::Proxy(m) => AppErrorView::Proxy(m@),
        }
    }
}

/// The text of one decimal digit.
pub open spec fn digit_text(d: int) -> Seq<char> {
    if d == 0 {
        "0"@
    } else if d == 1 {
        "1"@
    } else if d == 2 {
        "2"@
    } else if d == 3 {
        "3"@
    } else if d == 4 {
        "4"@
    } else if d == 5 {
        "5"@
    } else if d == 6 {
        "6"@
    } else if d == 7 {
        "7"@
    } else if d == 8 {
        "8"@
    } else {
        "9"@
    }
}

/// The decimal text of `n`, without leading zeros.
pub open spec fn decimal_text(n: nat) -> Seq<char>
    decreases n,
{
    if n < 10 {
        digit_text(n as int)
    } else {
        decimal_text(n / 10) + digit_text((n % 10) as int)
    }
}

proof fn lemma_digit_text(d: int)
    requires
        0 <= d < 10,
    ensures
        digit_text(d).len() == 1,
        digit_text(d)[0] as u32 == 48 + d,
{
    reveal_strlit("0");
    reveal_strlit("1");
    reveal_strlit("2");
    reveal_strlit("3");
    reveal_strlit("4");
    reveal_strlit("5");
    reveal_strlit("6");
    reveal_strlit("7");
    reveal_strlit("8");
    reveal_strlit("9");
}

/// The decimal text of a number is a non-empty run of digits that denotes it, with
/// no leading zero unless the number is 0.
pub proof fn lemma_decimal_text(n: nat)
    ensures
        decimal_text(n).len() > 0,
        all_digits(decimal_text(n)),
        decimal_value(decimal_text(n)) == n,
        decimal_text(n)[0] == '0' ==> n == 0,
    decreases n,
{
    if n < 10 {
        lemma_digit_text(n as int);
        let t = decimal_text(n);
        assert(t.drop_last().len() == 0);
        assert(decimal_value(t.drop_last()) == 0);
        assert(decimal_value(t) == decimal_value(t.drop_last()) * 10 + (t.last() as u32 - 48));
    } else {
        lemma_decimal_text(n / 10);
        lemma_digit_text((n % 10) as int);
        let h = decimal_text(n / 10);
        let d = digit_text((n % 10) as int);
        let t = h + d;
        assert(t.drop_last() =~= h);
        assert(t.last() == d[0]);
        assert(t[0] == h[0]);
        assert forall|k: int| 0 <= k < t.len() implies crate::text::is_digit(#[trigger] t[k]) by {
            if k < h.len() {
                assert(t[k] == h[k]);
            }
        }
        assert(decimal_value(t) == decimal_value(h) * 10 + (t.last() as u32 - 48));
        assert(n == (n / 10) * 10 + n % 10);
    }
}

fn digit_str(d: u64) -> (r: &'static str)
    requires
        d < 10,
    ensures
        r@ == digit_text(d as int),
{
    if d == 0 {
        "0"
    } else if d == 1 {
        "1"
    } else if d == 2 {
        "2"
    } else if d == 3 {
        "3"
    } else if d == 4 {
        "4"
    } else if d == 5 {
        "5"
    } else if d == 6 {
        "6"
    } else if d == 7 {
        "7"
    } else if d == 8 {
        "8"
    } else {
        "9"
    }
}

/// The decimal text of `n`.
pub fn decimal_string(n: u64) -> (r: String)
    ensures
        r@ == decimal_text(n as nat),
    decreases n,
{
    if n < 10 {
        digit_str(n).to_owned()
    } else {
        let mut r = decimal_string(n / 10);
        r.append(digit_str(n % 10));
        r
    }
}

/// An error as the client sees it: an HTTP status, a message and an error type.
#[derive(Debug, PartialEq, Eq)]
pub struct ErrorReply {
    pub status: u16,
    pub message: String,
    pub error_type: String,
}

pub struct ErrorReplyView {
    pub status: u16,
    pub message: Seq<char>,
    pub error_type: Seq<char>,
}

impl View for ErrorReply {
    type V = ErrorReplyView;

    open spec fn view(&self) -> ErrorReplyView {
        ErrorReplyView { status: self.status, message: self.message@, error_type: self.error_type@ }
    }
}

/// What the client is answered for an error: 400 for an invalid request, the
/// upstream's status for an upstream failure, 500 otherwise.
pub open spec fn error_reply(e: AppErrorView) -> ErrorReplyView {
    match e {
        AppErrorView::InvalidRequest(m) => ErrorReplyView {
            status: 400,
            message: m,
            error_type: "invalid_request_error"@,
        },
        AppErrorView::UpstreamApi(s, m) => ErrorReplyView {
            status: s,
            message: "API 请求失败: "@ + decimal_text(s as nat) + " - "@ + m,
            error_type: "api_error"@,
        },
        AppErrorView::Network(m) => ErrorReplyView {
            status: 500,
            message: m,
            error_type: "network_error"@,
        },
        AppErrorView::Proxy(m) => ErrorReplyView { status: 500, message: m, error_type: "proxy_error"@ },
    }
}

/// The status a failed request is answered with: 400 for an invalid request, the
/// upstream's own status for an upstream failure, 500 where the upstream could not
/// be reached or the proxy itself failed; the message is the error's own, an
/// upstream failure's prefixed with its status.
pub proof fn lemma_reply_status(e: AppErrorView)
    ensures
        e matches AppErrorView::InvalidRequest(m) ==> error_reply(e).status == 400
            && error_reply(e).message == m && error_reply(e).error_type == "invalid_request_error"@,
        e matches AppErrorView::UpstreamApi(s, m) ==> error_reply(e).status == s
            && error_reply(e).message == "API 请求失败: "@ + decimal_text(s as nat) + " - "@ + m
            && error_reply(e).error_type == "api_error"@,
        e matches AppErrorView::Network(m) ==> error_reply(e).status == 500 && error_reply(e).message == m
            && error_reply(e).error_type == "network_error"@,
        e matches AppErrorView::Proxy(m) ==> error_reply(e).status == 500 && error_reply(e).message == m
            && error_reply(e).error_type == "proxy_error"@,
{
}

impl AppError {
    /// The status, message and error type that the client is answered with.
    pub fn reply(&self) -> (r: ErrorReply)
        ensures
            r@ == error_reply(self@),
            self@ matches AppErrorView::UpstreamApi(s, _) ==> r.status == s,
            self@ is InvalidRequest ==> r.status == 400,
            (self@ is Network || self@ is Proxy) ==> r.status == 500,
    {
        proof {
            lemma_reply_status(self@);
        }
        match self {
            AppError::InvalidRequest(m) => ErrorReply {
                status: 400,
                message: m.clone(),
                error_type: "invalid_request_error".to_owned(),
            },
            AppError::UpstreamApi(s, m) => {
                let mut message = "API 请求失败: ".to_owned();
                let code = decimal_string(*s as u64);
                message.append(code.as_str());
                message.append(" - ");
                message.append(m.as_str());
                ErrorReply { status: *s, message, error_type: "api_error".to_owned() }
            },
            AppError::Network(m) => ErrorReply {
                status: 500,
                message: m.clone(),
                error_type: "network_error".to_owned(),
            },
            AppError::Proxy(m) => ErrorReply {
                status: 500,
                message: m.clone(),
                error_type: "proxy_error".to_owned(),
            },
        }
    }
}

/// A lowercase hexadecimal digit.
pub open spec fn hex_digit(n: int) -> char {
    if n < 10 {
        (48 + n) as char
    } else {
        (87 + n) as char
    }
}

/// How one character is written inside a JSON string: `"` and `\` behind a
/// backslash, backspace, tab, line feed, form feed and carriage return as `\b`,
/// `\t`, `\n`, `\f`, `\r`, the other characters below U+0020 as `\u00` and two
/// lowercase hex digits, every other character as itself.
pub open spec fn json_char_escape(c: char) -> Seq<char> {
    let u = c as u32;
    if c == '"' {
        seq!['\\', '"']
    } else if c == '\\' {
        seq!['\\', '\\']
    } else if u == 0x08 {
        seq!['\\', 'b']
    } else if u == 0x09 {
        seq!['\\', 't']
    } else if u == 0x0A {
        seq!['\\', 'n']
    } else if u == 0x0C {
        seq!['\\', 'f']
    } else if u == 0x0D {
        seq!['\\', 'r']
    } else if u < 0x20 {
        seq!['\\', 'u', '0', '0', hex_digit(u as int / 16), hex_digit(u as int % 16)]
    } else {
        seq![c]
    }
}

/// The characters of `s`, each escaped as in a JSON string.
pub open spec fn json_escaped(s: Seq<char>) -> Seq<char>
    decreases s.len(),
{
    if s.len() == 0 {
        Seq::empty()
    } else {
        json_escaped(s.drop_last()) + json_char_escape(s.last())
    }
}

/// The JSON string literal holding `s`: `s` escaped, between double quotes.
pub open spec fn json_string_literal(s: Seq<char>) -> Seq<char> {
    seq!['"'] + json_escaped(s) + seq!['"']
}

/// `serde_json::to_string` on a string slice: it writes the quoted, escaped literal
/// into a `Vec`, which cannot fail.
#[verifier::external_body]
fn json_quote(s: &str) -> (r: Option<String>)
    ensures
        r is Some,
        r->0@ == json_string_literal(s@),
{
    serde_json::to_string(s).ok()
}

/// The body of an error answer, `{"detail":{"error":{"message":..,"type":..}}}`,
/// from the two string literals that go in it.
pub open spec fn error_body_text(message_json: Seq<char>, type_json: Seq<char>) -> Seq<char> {
    "{\"detail\":{\"error\":{\"message\":"@ + message_json + ",\"type\":"@ + type_json + "}}}"@
}

/// Frames the error body around the JSON literals of the message and the error type.
pub fn error_body_from_literals(message_json: &str, type_json: &str) -> (r: String)
    ensures
        r@ == error_body_text(message_json@, type_json@),
{
    let mut r = "{\"detail\":{\"error\":{\"message\":".to_owned();
    r.append(message_json);
    r.append(",\"type\":");
    r.append(type_json);
    r.append("}}}");
    r
}

/// The JSON body of an error answer with this message and error type.
pub fn error_body(message: &str, error_type: &str) -> (r: String)
    ensures
        r@ == error_body_text(json_string_literal(message@), json_string_literal(error_type@)),
{
    let m = match json_quote(message) {
        Some(m) => m,
        None => String::new(),
    };
    let t = match json_quote(error_type) {
        Some(t) => t,
        None => String::new(),
    };
    error_body_from_literals(m.as_str(), t.as_str())
}

} // verus!
