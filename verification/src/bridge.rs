//! The dsh daemon `/api` wire envelope, client side: build a `client-request`,
//! validate the `server-response`, and fold business errors into
//! [`ApiError::Rpc`].

use vstd::prelude::*;
use crate::ids::{is_uuid_v4_text, new_uuid_v4};
use crate::json::{jbool, jget, jstr, render, write_json, JsonValue, JsonView};
use crate::text::{
    chars_of, concat_str, debug_quote, debug_str, decimal, decimal_of, eq_chars, extend, find_char,
    index_of, is_ascii_alnum, lemma_index_of, slice_copy, string_of,
};

verus! {

/// A failed call.
#[derive(Debug)]
pub enum ApiError {
    /// Connect failure, timeout, or a non-2xx status (transport only).
    Transport(String),
    /// Business error from the daemon: code, message and details verbatim.
    Rpc { code: String, message: String, details: JsonValue },
    /// Malformed envelope, bad method shape, or rpcId echo mismatch.
    Protocol(String),
}

pub enum ApiErrorView {
    Transport(Seq<char>),
    Rpc { code: Seq<char>, message: Seq<char>, details: JsonView },
    Protocol(Seq<char>),
}

impl View for ApiError {
    type V = ApiErrorView;

    open spec fn view(&self) -> ApiErrorView {
        match self {
            ApiError::Transport(m) => ApiErrorView::Transport(m@),
            ApiError::Rpc { code, message, details } => ApiErrorView::Rpc {
                code: code@,
                message: message@,
                details: details@,
            },
            ApiError::Protocol(m) => ApiErrorView::Protocol(m@),
        }
    }
}

/// The text an [`ApiError`] displays.
pub open spec fn api_error_text(e: ApiErrorView) -> Seq<char> {
    match e {
        ApiErrorView::Transport(m) => "传输失败："@ + m,
        ApiErrorView::Rpc { code, message, .. } => "["@ + code + "] "@ + message,
        ApiErrorView::Protocol(m) => "协议错误："@ + m,
    }
}

impl ApiError {
    /// The message this error displays (`[code] message` for business errors).
    pub fn to_display_string(&self) -> (s: String)
        ensures
            s@ == api_error_text(self@),
    {
        match self {
            ApiError::Transport(m) => {
                let v = concat_str("传输失败：", chars_of(m.as_str()).as_slice());
                string_of(v.as_slice())
            },
            ApiError::Rpc { code, message, .. } => {
                let mut v = concat_str("[", chars_of(code.as_str()).as_slice());
                let tail = concat_str("] ", chars_of(message.as_str()).as_slice());
                extend(&mut v, tail.as_slice());
                string_of(v.as_slice())
            },
            ApiError::Protocol(m) => {
                let v = concat_str("协议错误：", chars_of(m.as_str()).as_slice());
                string_of(v.as_slice())
            },
        }
    }
}

/// One method-name segment: ASCII letters and digits plus `-`/`_`, nonempty.
pub open spec fn valid_segment(s: Seq<char>) -> bool {
    &&& s.len() > 0
    &&& forall|i: int| 0 <= i < s.len() ==> is_ascii_alnum(#[trigger] s[i]) || s[i] == '-' || s[i] == '_'
}

/// Method shape whitelist: `<ns>/<name>` (split at the first `/`) or, with no
/// `/`, `<domain>.<name>` (split at the first `.`).
pub open spec fn method_shape_ok(m: Seq<char>) -> bool {
    let slash = index_of(m, '/');
    let dot = index_of(m, '.');
    if slash >= 0 {
        valid_segment(m.take(slash)) && valid_segment(m.skip(slash + 1))
    } else {
        dot >= 0 && valid_segment(m.take(dot)) && valid_segment(m.skip(dot + 1))
    }
}

fn is_valid_segment(s: &[char]) -> (b: bool)
    ensures
        b == valid_segment(s@),
{
    if s.len() == 0 {
        return false;
    }
    let mut i: usize = 0;
    while i < s.len()
        invariant
            i <= s@.len(),
            forall|j: int| 0 <= j < i ==> is_ascii_alnum(#[trigger] s@[j]) || s@[j] == '-' || s@[j] == '_',
        decreases s@.len() - i,
    {
        let c = s[i];
        if !(crate::text::char_is_ascii_alnum(c) || c == '-' || c == '_') {
            return false;
        }
        i += 1;
    }
    true
}

fn split_valid(s: &[char], at: usize) -> (b: bool)
    requires
        at < s@.len(),
    ensures
        b == (valid_segment(s@.take(at as int)) && valid_segment(s@.skip(at + 1))),
{
    let n = s.len();
    let a = slice_copy(s, 0, at);
    let b = slice_copy(s, at + 1, n);
    assert(a@ =~= s@.take(at as int));
    assert(b@ =~= s@.skip(at + 1));
    is_valid_segment(a.as_slice()) && is_valid_segment(b.as_slice())
}

/// Rejects method names that are not `<domain>.<name>` or `<ns>/<name>`, so
/// a webview can never smuggle a URL into the POST path.
pub fn validate_method(method: &str) -> (r: Result<(), ApiError>)
    ensures
        r is Ok <==> method_shape_ok(method@),
        r matches Err(e) ==> e@ == ApiErrorView::Protocol("非法 method 形状："@ + debug_str(method@)),
{
    let m = chars_of(method);
    proof {
        lemma_index_of(m@, '/');
        lemma_index_of(m@, '.');
    }
    let ok = match find_char(m.as_slice(), '/') {
        Some(i) => split_valid(m.as_slice(), i),
        None => match find_char(m.as_slice(), '.') {
            Some(i) => split_valid(m.as_slice(), i),
            None => false,
        },
    };
    if ok {
        Ok(())
    } else {
        let q = debug_quote(method);
        let v = concat_str("非法 method 形状：", chars_of(q.as_str()).as_slice());
        Err(ApiError::Protocol(string_of(v.as_slice())))
    }
}

pub open spec fn contains_char(s: Seq<char>, c: char) -> bool {
    exists|i: int| 0 <= i < s.len() && s[i] == c
}

/// The payload as sent: Typert remotes (`ns/name`) take exactly
/// `{ "args": payload }`, static methods take the payload verbatim.
pub open spec fn wrap_payload_spec(method: Seq<char>, payload: JsonView) -> JsonView {
    if contains_char(method, '/') {
        JsonView::Object(seq![("args"@, payload)])
    } else {
        payload
    }
}

/// Wraps the payload of a remote method in its `args` shell.
pub fn wrap_payload(method: &str, payload: JsonValue) -> (r: JsonValue)
    ensures
        r@ == wrap_payload_spec(method@, payload@),
{
    let m = chars_of(method);
    proof {
        lemma_index_of(m@, '/');
    }
    match find_char(m.as_slice(), '/') {
        Some(i) => {
            assert(m@[i as int] == '/');
            let mut entries: Vec<(String, JsonValue)> = Vec::new();
            entries.push((string_of(chars_of("args").as_slice()), payload));
            let r = JsonValue::Object(entries);
            proof {
                crate::json::lemma_entry_views_len(entries@);
            }
            assert(r@ =~= JsonView::Object(seq![("args"@, payload@)]));
            r
        },
        None => payload,
    }
}

/// The `client-request` envelope (object members in map order).
pub open spec fn envelope_spec(method: Seq<char>, payload: JsonView, rpc_id: Seq<char>) -> JsonView {
    JsonView::Object(
        seq![
            ("method"@, JsonView::String(method)),
            ("payload"@, wrap_payload_spec(method, payload)),
            ("rpcId"@, JsonView::String(rpc_id)),
            ("type"@, JsonView::String("client-request"@)),
        ],
    )
}

/// The wire body for one call carrying the given rpcId.
pub fn build_envelope(method: &str, payload: JsonValue, rpc_id: &str) -> (body: JsonValue)
    ensures
        body@ == envelope_spec(method@, payload@, rpc_id@),
{
    let mut entries: Vec<(String, JsonValue)> = Vec::new();
    let k1 = string_of(chars_of("method").as_slice());
    let v1 = JsonValue::String(string_of(chars_of(method).as_slice()));
    let k2 = string_of(chars_of("payload").as_slice());
    let v2 = wrap_payload(method, payload);
    let k3 = string_of(chars_of("rpcId").as_slice());
    let v3 = JsonValue::String(string_of(chars_of(rpc_id).as_slice()));
    let k4 = string_of(chars_of("type").as_slice());
    let v4 = JsonValue::String(string_of(chars_of("client-request").as_slice()));
    let ghost want = seq![
        ("method"@, JsonView::String(method@)),
        ("payload"@, wrap_payload_spec(method@, payload@)),
        ("rpcId"@, JsonView::String(rpc_id@)),
        ("type"@, JsonView::String("client-request"@)),
    ];
    entries.push((k1, v1));
    entries.push((k2, v2));
    entries.push((k3, v3));
    entries.push((k4, v4));
    proof {
        crate::json::lemma_entry_views_len(entries@);
        assert(crate::json::entry_views_of(entries@) =~= want);
    }
    JsonValue::Object(entries)
}

/// The error when no rpcId can be minted.
pub open spec fn rpc_id_failure_text() -> Seq<char> {
    "无法生成 rpcId：系统随机源不可用"@
}

/// Builds the wire body with a freshly minted rpcId, returned alongside for
/// echo validation; a transport error when the operating system's random
/// source fails.
pub fn build_body(method: &str, payload: JsonValue) -> (r: Result<(String, JsonValue), ApiError>)
    ensures
        match r {
            Ok((id, body)) => is_uuid_v4_text(id@) && body@ == envelope_spec(method@, payload@, id@),
            Err(e) => e@ == ApiErrorView::Transport(rpc_id_failure_text()),
        },
{
    match new_uuid_v4() {
        Some(rpc_id) => {
            let body = build_envelope(method, payload, rpc_id.as_str());
            Ok((rpc_id, body))
        },
        None => Err(ApiError::Transport(String::from_str("无法生成 rpcId：系统随机源不可用"))),
    }
}

pub open spec fn or_null(o: Option<JsonView>) -> JsonView {
    match o {
        Some(v) => v,
        None => JsonView::Null,
    }
}

pub open spec fn or_text(o: Option<Seq<char>>, d: Seq<char>) -> Seq<char> {
    match o {
        Some(v) => v,
        None => d,
    }
}

/// What a raw response body means: envelope shape, rpcId echo, result fold.
pub open spec fn parse_response_spec(body: JsonView, expected_rpc_id: Seq<char>) -> Result<
    JsonView,
    ApiErrorView,
> {
    if jstr(jget(body, "type"@)) != Some("server-response"@) {
        Err(ApiErrorView::Protocol("响应 type 非 server-response："@ + render(body)))
    } else {
        let echoed = or_text(jstr(jget(body, "rpcId"@)), seq![]);
        if echoed != expected_rpc_id {
            Err(
                ApiErrorView::Protocol(
                    "rpcId 回声不符：期望 "@ + expected_rpc_id + "，收到 "@ + debug_str(echoed),
                ),
            )
        } else {
            match jget(body, "result"@) {
                None => Err(ApiErrorView::Protocol("响应缺 result 字段"@)),
                Some(result) => match jbool(jget(result, "ok"@)) {
                    Some(true) => Ok(or_null(jget(result, "value"@))),
                    Some(false) => {
                        let error = or_null(jget(result, "error"@));
                        Err(
                            ApiErrorView::Rpc {
                                code: or_text(jstr(jget(error, "code"@)), "internal"@),
                                message: or_text(jstr(jget(error, "message"@)), "（无 message）"@),
                                details: or_null(jget(error, "details"@)),
                            },
                        )
                    },
                    None => Err(ApiErrorView::Protocol("result.ok 缺失或非布尔："@ + render(result))),
                },
            }
        }
    }
}

pub open spec fn result_view(r: Result<JsonValue, ApiError>) -> Result<JsonView, ApiErrorView> {
    match r {
        Ok(v) => Ok(v@),
        Err(e) => Err(e@),
    }
}

fn member_str<'a>(j: &'a JsonValue, key: &str) -> (r: Option<&'a str>)
    ensures
        match r {
            Some(s) => jstr(jget(j@, key@)) == Some(s@),
            None => jstr(jget(j@, key@)) is None,
        },
{
    match j.get(key) {
        Some(v) => v.as_str(),
        None => None,
    }
}

fn member_or_null(j: &JsonValue, key: &str) -> (r: JsonValue)
    ensures
        r@ == or_null(jget(j@, key@)),
{
    match j.get(key) {
        Some(v) => v.deep_clone(),
        None => JsonValue::Null,
    }
}

fn rendered(prefix: &str, j: &JsonValue) -> (s: String)
    ensures
        s@ == prefix@ + render(j@),
{
    let mut v = chars_of(prefix);
    write_json(j, &mut v);
    string_of(v.as_slice())
}

/// Validates a raw response body: envelope shape, rpcId echo, result fold.
/// `void` results have no `value` field and surface as `Null`.
pub fn parse_response(body: &JsonValue, expected_rpc_id: &str) -> (r: Result<JsonValue, ApiError>)
    ensures
        result_view(r) == parse_response_spec(body@, expected_rpc_id@),
{
    let type_ok = match member_str(body, "type") {
        Some(t) => eq_chars(chars_of(t).as_slice(), chars_of("server-response").as_slice()),
        None => false,
    };
    if !type_ok {
        return Err(ApiError::Protocol(rendered("响应 type 非 server-response：", body)));
    }
    let echoed: &str = match member_str(body, "rpcId") {
        Some(s) => s,
        None => "",
    };
    proof {
        reveal_strlit("");
        assert(""@ =~= Seq::<char>::empty());
    }
    if !eq_chars(chars_of(echoed).as_slice(), chars_of(expected_rpc_id).as_slice()) {
        let mut v = concat_str("rpcId 回声不符：期望 ", chars_of(expected_rpc_id).as_slice());
        let q = debug_quote(echoed);
        let tail = concat_str("，收到 ", chars_of(q.as_str()).as_slice());
        extend(&mut v, tail.as_slice());
        assert(v@ =~= "rpcId 回声不符：期望 "@ + expected_rpc_id@ + "，收到 "@ + debug_str(echoed@));
        return Err(ApiError::Protocol(string_of(v.as_slice())));
    }
    let result = match body.get("result") {
        Some(r) => r,
        None => {
            return Err(ApiError::Protocol(string_of(chars_of("响应缺 result 字段").as_slice())));
        },
    };
    let ok = match result.get("ok") {
        Some(v) => v.as_bool(),
        None => None,
    };
    match ok {
        Some(true) => Ok(member_or_null(result, "value")),
        Some(false) => {
            let error = member_or_null(result, "error");
            let code = match member_str(&error, "code") {
                Some(s) => string_of(chars_of(s).as_slice()),
                None => string_of(chars_of("internal").as_slice()),
            };
            let message = match member_str(&error, "message") {
                Some(s) => string_of(chars_of(s).as_slice()),
                None => string_of(chars_of("（无 message）").as_slice()),
            };
            let details = member_or_null(&error, "details");
            Err(ApiError::Rpc { code, message, details })
        },
        None => Err(ApiError::Protocol(rendered("result.ok 缺失或非布尔：", result))),
    }
}

/// `http://127.0.0.1:<port>`, the loopback base of the daemon.
pub open spec fn base_url_spec(port: u16) -> Seq<char> {
    "http://127.0.0.1:"@ + decimal(port as nat)
}

pub fn base_url(port: u16) -> (s: String)
    ensures
        s@ == base_url_spec(port),
{
    let d = decimal_of(port as u64);
    string_of(concat_str("http://127.0.0.1:", d.as_slice()).as_slice())
}

/// `<base>/api/<method>`, the POST target of one call.
pub fn call_url(base: &str, method: &str) -> (s: String)
    ensures
        s@ == base@ + "/api/"@ + method@,
{
    let mut v = chars_of(base);
    let tail = concat_str("/api/", chars_of(method).as_slice());
    extend(&mut v, tail.as_slice());
    string_of(v.as_slice())
}

/// Transport-level check of the HTTP status: only 2xx goes on to the envelope;
/// anything else is `Transport("HTTP <status text>")`.
pub fn check_status(status: u16, status_text: &str) -> (r: Result<(), ApiError>)
    ensures
        r is Ok <==> 200 <= status < 300,
        r matches Err(e) ==> e@ == ApiErrorView::Transport("HTTP "@ + status_text@),
{
    if 200 <= status && status < 300 {
        Ok(())
    } else {
        let v = concat_str("HTTP ", chars_of(status_text).as_slice());
        Err(ApiError::Transport(string_of(v.as_slice())))
    }
}


/// The daemon's reply to a call that succeeded: `result.ok` true and, unless
/// the method returns nothing, `result.value`.
pub open spec fn ok_reply(rpc_id: Seq<char>, value: Option<JsonView>) -> JsonView {
    let result = match value {
        Some(v) => JsonView::Object(seq![("ok"@, JsonView::Bool(true)), ("value"@, v)]),
        None => JsonView::Object(seq![("ok"@, JsonView::Bool(true))]),
    };
    JsonView::Object(
        seq![
            ("result"@, result),
            ("rpcId"@, JsonView::String(rpc_id)),
            ("type"@, JsonView::String("server-response"@)),
        ],
    )
}

/// The daemon's reply to a call refused by business rules.
pub open spec fn error_reply(
    rpc_id: Seq<char>,
    code: Seq<char>,
    message: Seq<char>,
    details: JsonView,
) -> JsonView {
    let error = JsonView::Object(
        seq![
            ("code"@, JsonView::String(code)),
            ("details"@, details),
            ("message"@, JsonView::String(message)),
        ],
    );
    JsonView::Object(
        seq![
            ("result"@, JsonView::Object(seq![("error"@, error), ("ok"@, JsonView::Bool(false))])),
            ("rpcId"@, JsonView::String(rpc_id)),
            ("type"@, JsonView::String("server-response"@)),
        ],
    )
}

proof fn lemma_keys_distinct()
    ensures
        "result"@ != "rpcId"@,
        "result"@ != "type"@,
        "rpcId"@ != "type"@,
        "ok"@ != "value"@,
        "error"@ != "ok"@,
        "code"@ != "details"@,
        "code"@ != "message"@,
        "details"@ != "message"@,
{
    reveal_strlit("result");
    reveal_strlit("rpcId");
    reveal_strlit("type");
    reveal_strlit("ok");
    reveal_strlit("value");
    reveal_strlit("error");
    reveal_strlit("code");
    reveal_strlit("details");
    reveal_strlit("message");
    assert("result"@.len() == 6);
    assert("rpcId"@.len() == 5);
    assert("type"@.len() == 4);
    assert("ok"@.len() == 2);
    assert("value"@.len() == 5);
    assert("error"@.len() == 5);
    assert("code"@.len() == 4);
    assert("details"@.len() == 7);
    assert("details"@[0] != "message"@[0]);
}

/// A reply that echoes the call's rpcId gives back the value it carries
/// (`Null` for a method that returns nothing); one that echoes another id is
/// refused as a protocol error.
pub proof fn lemma_ok_reply_gives_value(rpc_id: Seq<char>, value: Option<JsonView>, expected: Seq<char>)
    ensures
        parse_response_spec(ok_reply(rpc_id, value), expected) == (if rpc_id == expected {
            Ok(or_null(value))
        } else {
            Err(
                ApiErrorView::Protocol(
                    "rpcId 回声不符：期望 "@ + expected + "，收到 "@ + debug_str(rpc_id),
                ),
            )
        }),
{
    lemma_keys_distinct();
    reveal_with_fuel(crate::json::find_entry, 4);
}

/// A business error comes back with its code, message and details verbatim.
pub proof fn lemma_error_reply_keeps_fields(
    rpc_id: Seq<char>,
    code: Seq<char>,
    message: Seq<char>,
    details: JsonView,
)
    ensures
        parse_response_spec(error_reply(rpc_id, code, message, details), rpc_id) == Err::<
            JsonView,
            ApiErrorView,
        >(ApiErrorView::Rpc { code, message, details }),
{
    lemma_keys_distinct();
    reveal_with_fuel(crate::json::find_entry, 4);
}


/// Method names that `validate_method` accepts are made of ASCII letters,
/// digits, `-`, `_` and the separators; and every name `<a>/<b>` or `<a>.<b>`
/// whose two sides are nonempty runs of ASCII letters, digits, `-` and `_` is
/// accepted.
pub proof fn lemma_method_names(a: Seq<char>, b: Seq<char>)
    requires
        a.len() > 0,
        b.len() > 0,
        forall|i: int|
            0 <= i < a.len() ==> (('a' <= #[trigger] a[i] && a[i] <= 'z') || ('A' <= a[i] && a[i] <= 'Z')
                || ('0' <= a[i] && a[i] <= '9') || a[i] == '-' || a[i] == '_'),
        forall|i: int|
            0 <= i < b.len() ==> (('a' <= #[trigger] b[i] && b[i] <= 'z') || ('A' <= b[i] && b[i] <= 'Z')
                || ('0' <= b[i] && b[i] <= '9') || b[i] == '-' || b[i] == '_'),
    ensures
        method_shape_ok(a + seq!['/'] + b),
        method_shape_ok(a + seq!['.'] + b),
{
    let m1 = a + seq!['/'] + b;
    let m2 = a + seq!['.'] + b;
    lemma_index_of(m1, '/');
    lemma_index_of(m2, '/');
    lemma_index_of(m2, '.');
    assert(m1[a.len() as int] == '/');
    assert(m2[a.len() as int] == '.');
    if index_of(m1, '/') < a.len() {
        assert(m1[index_of(m1, '/')] == a[index_of(m1, '/')]);
    }
    if index_of(m2, '.') < a.len() {
        assert(m2[index_of(m2, '.')] == a[index_of(m2, '.')]);
    }
    if index_of(m2, '/') >= 0 {
        let k = index_of(m2, '/');
        if k < a.len() {
            assert(m2[k] == a[k]);
        } else if k > a.len() {
            assert(m2[k] == b[k - a.len() - 1]);
        }
    }
    assert(m1.take(a.len() as int) =~= a);
    assert(m1.skip(a.len() as int + 1) =~= b);
    assert(m2.take(a.len() as int) =~= a);
    assert(m2.skip(a.len() as int + 1) =~= b);
}

/// Every character of an accepted method name is an ASCII letter or digit,
/// `-`, `_`, `/` or `.`.
pub proof fn lemma_method_chars(m: Seq<char>)
    requires
        method_shape_ok(m),
    ensures
        forall|i: int|
            0 <= i < m.len() ==> (('a' <= #[trigger] m[i] && m[i] <= 'z') || ('A' <= m[i] && m[i] <= 'Z')
                || ('0' <= m[i] && m[i] <= '9') || m[i] == '-' || m[i] == '_' || m[i] == '/' || m[i] == '.'),
{
    lemma_index_of(m, '/');
    lemma_index_of(m, '.');
    let k = if index_of(m, '/') >= 0 {
        index_of(m, '/')
    } else {
        index_of(m, '.')
    };
    assert forall|i: int| 0 <= i < m.len() implies (('a' <= #[trigger] m[i] && m[i] <= 'z') || ('A' <= m[i]
        && m[i] <= 'Z') || ('0' <= m[i] && m[i] <= '9') || m[i] == '-' || m[i] == '_' || m[i] == '/'
        || m[i] == '.') by {
        if i < k {
            assert(m.take(k)[i] == m[i]);
        } else if i > k {
            assert(m.skip(k + 1)[i - k - 1] == m[i]);
        }
    }
}

} // verus!
