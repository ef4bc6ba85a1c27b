use dsh_client::bridge::{
    base_url, build_body, build_envelope, call_url, check_status, parse_response, validate_method,
    wrap_payload, ApiError,
};
use dsh_client::json::{write_json, JsonValue};

fn s(x: &str) -> String {
    x.to_string()
}

fn jstr(x: &str) -> JsonValue {
    JsonValue::String(s(x))
}

fn num(x: &str) -> JsonValue {
    JsonValue::Number(s(x))
}

/// An object with its members given in key order (as serde_json keeps them).
fn obj(members: Vec<(&str, JsonValue)>) -> JsonValue {
    JsonValue::Object(members.into_iter().map(|(k, v)| (s(k), v)).collect())
}

fn render(j: &JsonValue) -> String {
    let mut out: Vec<char> = Vec::new();
    write_json(j, &mut out);
    out.into_iter().collect()
}

fn member<'a>(j: &'a JsonValue, key: &str) -> &'a JsonValue {
    j.get(key).expect("member present")
}

#[test]
fn validate_method_accepts_static_and_remote() {
    assert!(validate_method("settings.describe").is_ok());
    assert!(validate_method("pluginInventory/list").is_ok());
    assert!(validate_method("dynamicCordisRunner/stopFromPanel").is_ok());
}

#[test]
fn validate_method_rejects_path_smuggling() {
    for bad in ["", "foo", "a//b", "a/b/c", "a.b.c", "../etc", "a b/c", "a?b/c", "/list", "x/"] {
        assert!(validate_method(bad).is_err(), "应拒绝 {bad:?}");
    }
}

#[test]
fn wrap_payload_only_wraps_remote_methods() {
    assert_eq!(wrap_payload("pluginInventory/list", obj(vec![])), obj(vec![("args", obj(vec![]))]));
    assert_eq!(
        wrap_payload("dynamicCordisRunner/stopFromPanel", obj(vec![("pluginId", jstr("p"))])),
        obj(vec![("args", obj(vec![("pluginId", jstr("p"))]))]),
    );
    let plain = obj(vec![("ns", jstr("x"))]);
    assert_eq!(wrap_payload("settings.update", plain.deep_clone()), plain);
}

#[test]
fn build_body_mints_rpc_id_and_envelope() {
    let (rpc_id, body) = build_body("settings.describe", obj(vec![])).unwrap();
    assert!(!rpc_id.is_empty());
    assert_eq!(member(&body, "type"), &jstr("client-request"));
    assert_eq!(member(&body, "rpcId"), &jstr(&rpc_id));
    assert_eq!(member(&body, "method"), &jstr("settings.describe"));
    assert_eq!(member(&body, "payload"), &obj(vec![]));
}

#[test]
fn parse_response_ok_with_value() {
    let body = obj(vec![
        ("result", obj(vec![("ok", JsonValue::Bool(true)), ("value", obj(vec![("entries", JsonValue::Array(vec![]))]))])),
        ("rpcId", jstr("r1")),
        ("type", jstr("server-response")),
    ]);
    assert_eq!(parse_response(&body, "r1").unwrap(), obj(vec![("entries", JsonValue::Array(vec![]))]));
}

#[test]
fn parse_response_ok_void_has_no_value() {
    let body = obj(vec![
        ("result", obj(vec![("ok", JsonValue::Bool(true))])),
        ("rpcId", jstr("r1")),
        ("type", jstr("server-response")),
    ]);
    assert_eq!(parse_response(&body, "r1").unwrap(), JsonValue::Null);
}

#[test]
fn parse_response_business_error_keeps_code_message_details() {
    let body = obj(vec![
        (
            "result",
            obj(vec![
                (
                    "error",
                    obj(vec![
                        ("code", jstr("settings-conflict")),
                        ("details", obj(vec![("actual", num("2")), ("expected", num("1")), ("ns", jstr("a"))])),
                        ("message", jstr("revision 过期")),
                    ]),
                ),
                ("ok", JsonValue::Bool(false)),
            ]),
        ),
        ("rpcId", jstr("r1")),
        ("type", jstr("server-response")),
    ]);
    match parse_response(&body, "r1") {
        Err(ApiError::Rpc { code, message, details }) => {
            assert_eq!(code, "settings-conflict");
            assert_eq!(message, "revision 过期");
            assert_eq!(member(&details, "actual"), &num("2"));
        }
        other => panic!("应为 Rpc 错误，得到 {other:?}"),
    }
}

#[test]
fn parse_response_rejects_rpc_id_mismatch_and_bad_type() {
    let body = obj(vec![
        ("result", obj(vec![("ok", JsonValue::Bool(true))])),
        ("rpcId", jstr("r2")),
        ("type", jstr("server-response")),
    ]);
    assert!(matches!(parse_response(&body, "r1"), Err(ApiError::Protocol(_))));
    let not_response = obj(vec![("rpcId", jstr("r1")), ("type", jstr("server-request"))]);
    assert!(matches!(parse_response(&not_response, "r1"), Err(ApiError::Protocol(_))));
}

#[test]
fn api_error_display_formats() {
    let rpc = ApiError::Rpc { code: "settings-conflict".into(), message: "过期".into(), details: obj(vec![]) };
    assert_eq!(rpc.to_display_string(), "[settings-conflict] 过期");
    assert_eq!(ApiError::Transport("超时".into()).to_display_string(), "传输失败：超时");
}

#[test]
fn protocol_error_displays_its_prefix() {
    assert_eq!(ApiError::Protocol("x".into()).to_display_string(), "协议错误：x");
}

#[test]
fn bad_method_error_quotes_the_method() {
    match validate_method("a b/c") {
        Err(ApiError::Protocol(m)) => assert_eq!(m, "非法 method 形状：\"a b/c\""),
        other => panic!("unexpected {other:?}"),
    }
}

#[test]
fn parse_response_messages_are_exact() {
    let not_response = obj(vec![("rpcId", jstr("r1")), ("type", jstr("server-request"))]);
    match parse_response(&not_response, "r1") {
        Err(ApiError::Protocol(m)) => {
            assert_eq!(m, "响应 type 非 server-response：{\"rpcId\":\"r1\",\"type\":\"server-request\"}")
        }
        other => panic!("unexpected {other:?}"),
    }
    let mismatch = obj(vec![("rpcId", jstr("r2")), ("type", jstr("server-response"))]);
    match parse_response(&mismatch, "r1") {
        Err(ApiError::Protocol(m)) => assert_eq!(m, "rpcId 回声不符：期望 r1，收到 \"r2\""),
        other => panic!("unexpected {other:?}"),
    }
    let no_result = obj(vec![("rpcId", jstr("r1")), ("type", jstr("server-response"))]);
    match parse_response(&no_result, "r1") {
        Err(ApiError::Protocol(m)) => assert_eq!(m, "响应缺 result 字段"),
        other => panic!("unexpected {other:?}"),
    }
    let bad_ok = obj(vec![
        ("result", obj(vec![("ok", num("1"))])),
        ("rpcId", jstr("r1")),
        ("type", jstr("server-response")),
    ]);
    match parse_response(&bad_ok, "r1") {
        Err(ApiError::Protocol(m)) => assert_eq!(m, "result.ok 缺失或非布尔：{\"ok\":1}"),
        other => panic!("unexpected {other:?}"),
    }
}

#[test]
fn business_error_defaults_when_fields_missing() {
    let body = obj(vec![
        ("result", obj(vec![("ok", JsonValue::Bool(false))])),
        ("rpcId", jstr("r1")),
        ("type", jstr("server-response")),
    ]);
    match parse_response(&body, "r1") {
        Err(ApiError::Rpc { code, message, details }) => {
            assert_eq!(code, "internal");
            assert_eq!(message, "（无 message）");
            assert_eq!(details, JsonValue::Null);
        }
        other => panic!("unexpected {other:?}"),
    }
}

#[test]
fn envelope_renders_in_key_order() {
    let body = build_envelope("pluginInventory/list", obj(vec![]), "id-1");
    assert_eq!(
        render(&body),
        "{\"method\":\"pluginInventory/list\",\"payload\":{\"args\":{}},\"rpcId\":\"id-1\",\"type\":\"client-request\"}"
    );
}

#[test]
fn rpc_ids_are_uuid_v4_text() {
    let (a, _) = build_body("settings.describe", JsonValue::Null).unwrap();
    let (b, _) = build_body("settings.describe", JsonValue::Null).unwrap();
    assert_eq!(a.len(), 36);
    assert_eq!(&a[14..15], "4");
    assert!(a.chars().all(|c| c == '-' || c.is_ascii_hexdigit() && !c.is_ascii_uppercase()));
    assert_ne!(a, b);
}

#[test]
fn urls_and_status_check() {
    assert_eq!(base_url(39187), "http://127.0.0.1:39187");
    assert_eq!(call_url("http://127.0.0.1:1", "settings.describe"), "http://127.0.0.1:1/api/settings.describe");
    assert!(check_status(200, "200 OK").is_ok());
    assert!(check_status(204, "204 No Content").is_ok());
    match check_status(404, "404 Not Found") {
        Err(ApiError::Transport(m)) => assert_eq!(m, "HTTP 404 Not Found"),
        other => panic!("unexpected {other:?}"),
    }
}

#[test]
fn json_strings_escape_like_serde_json() {
    let v = obj(vec![("k", jstr("a\"b\\c\n\u{1}é"))]);
    assert_eq!(render(&v), "{\"k\":\"a\\\"b\\\\c\\n\\u0001é\"}");
    assert_eq!(render(&JsonValue::Array(vec![JsonValue::Null, JsonValue::Bool(false), num("-1.5")])), "[null,false,-1.5]");
}

#[test]
fn rpc_id_has_version_and_variant_digits() {
    for _ in 0..32 {
        let (id, _) = build_body("settings.describe", JsonValue::Null).unwrap();
        let cs: Vec<char> = id.chars().collect();
        assert_eq!([cs[8], cs[13], cs[18], cs[23]], ['-', '-', '-', '-']);
        assert_eq!(cs[14], '4');
        assert!(matches!(cs[19], '8' | '9' | 'a' | 'b'));
    }
}
