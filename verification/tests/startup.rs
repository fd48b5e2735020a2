use pc::escape::{escape, Escape};
use pc::json::{json_text, Json};
use pc::startup::{
    check_startup, complete_body, complete_request, is_event_stream, is_tools_list,
    mcp_config_for, mcp_http_config, normalize_hosts, normalize_public_url, parse_hosts,
    scan_protocol_version, validate_public_url, EVENT_STREAM_CACHE_CONTROL,
};

fn some(s: &str) -> Option<String> {
    Some(s.to_string())
}

fn str(s: &str) -> Json {
    Json::Str(s.to_string())
}

fn object(members: Vec<(&str, Json)>) -> Json {
    Json::Object(members.into_iter().map(|(k, v)| (k.to_string(), v)).collect())
}

/// The JSON text of a value.
fn render(value: &Json) -> String {
    match value {
        Json::Null => "null".to_string(),
        Json::Bool(b) => b.to_string(),
        Json::Number(n) | Json::Float(n) => n.clone(),
        Json::Str(s) => format!("{s:?}"),
        Json::Array(items) => {
            format!("[{}]", items.iter().map(render).collect::<Vec<_>>().join(","))
        }
        Json::Object(members) => {
            let inner: Vec<String> =
                members.iter().map(|(k, v)| format!("{k:?}:{}", render(v))).collect();
            format!("{{{}}}", inner.join(","))
        }
    }
}

#[test]
fn mcp_transport_uses_modern_stateless_discovery() {
    let config = mcp_http_config(&None).expect("MCP HTTP config");
    assert!(!config.legacy_session_mode);
    assert!(
        !config.stateless_protocol_metadata_required,
        "automatic ChatGPT tools/list must not require per-request _meta"
    );
    assert!(
        !config.json_response,
        "MCPX-compatible ChatGPT discovery uses Streamable HTTP SSE responses"
    );
}

#[test]
fn host_guard_knows_the_public_host() {
    assert_eq!(mcp_http_config(&None).unwrap().allowed_hosts, ["localhost", "127.0.0.1", "::1"]);
    assert_eq!(
        mcp_http_config(&some("https://MCP.Example.com:8443")).unwrap().allowed_hosts,
        ["localhost", "127.0.0.1", "::1", "mcp.example.com"]
    );
    assert_eq!(
        mcp_http_config(&some("http://localhost")).unwrap().allowed_hosts,
        ["localhost", "127.0.0.1", "::1"]
    );
    assert_eq!(mcp_config_for(&None).allowed_hosts.len(), 3);
    let expected = url::Url::parse("nonsense").unwrap_err().to_string();
    assert_eq!(
        mcp_http_config(&some("nonsense")).unwrap_err(),
        format!("parse public_url for MCP host guard: {expected}")
    );
}

#[test]
fn hosts_are_normalized() {
    assert_eq!(
        parse_hosts(" ChatGPT.com. , ,*.OpenAI.com,chatgpt.com"),
        ["chatgpt.com.", "*.openai.com", "chatgpt.com"]
    );
    assert_eq!(parse_hosts(""), Vec::<String>::new());
    let hosts = vec!["\tA.b ".to_string(), "  ".to_string(), "c\u{c9}".to_string()];
    let once = normalize_hosts(&hosts);
    assert_eq!(once, ["a.b", "c\u{c9}"]);
    assert_eq!(normalize_hosts(&once), once);
}

#[test]
fn public_url_is_normalized_and_validated() {
    assert_eq!(normalize_public_url(&some(" https://a.b/// ")), some("https://a.b"));
    assert_eq!(normalize_public_url(&some("  ")), None);
    assert_eq!(normalize_public_url(&some("/")), some(""));
    assert_eq!(normalize_public_url(&None), None);
    assert_eq!(validate_public_url("https://a.b"), Ok(()));
    assert_eq!(validate_public_url("ftp://a.b:8443/path"), Ok(()));
    for (url, message) in [
        ("mailto:x", "public_url must contain a host"),
        ("https://u@a.b", "public_url must not contain username"),
        ("https://:p@a.b", "public_url must not contain password"),
        ("https://u:p@a.b", "public_url must not contain username"),
        ("https://a.b/?q", "public_url must not contain query"),
        ("https://a.b/#f", "public_url must not contain fragment"),
    ] {
        assert_eq!(validate_public_url(url), Err(message.to_string()), "{url}");
    }
    let expected = url::Url::parse("https://").unwrap_err().to_string();
    assert_eq!(validate_public_url("https://"), Err(format!("parse public_url: {expected}")));
}

#[test]
fn production_is_strict() {
    let hosts = vec!["chatgpt.com".to_string()];
    let url = some("https://a.b");
    let password = some("0123456789abcdef");
    let fails = |m: &str| Err(m.to_string());
    assert_eq!(check_startup(&url, &password, true, &hosts), Ok(()));
    assert_eq!(
        check_startup(&None, &password, true, &hosts),
        fails("public_url is required in production")
    );
    assert_eq!(
        check_startup(&some("http://a.b"), &password, true, &hosts),
        fails("public_url must be an absolute https:// URL in production")
    );
    for bad in [None, some("0123456789abcde")] {
        assert_eq!(
            check_startup(&url, &bad, true, &hosts),
            fails("oauth_password must be at least 16 characters in production")
        );
    }
    assert_eq!(
        check_startup(&url, &password, true, &vec![]),
        fails("allowed_redirect_hosts is required in production")
    );
    assert_eq!(check_startup(&None, &None, false, &vec![]), Ok(()));
    assert_eq!(check_startup(&some("http://a.b"), &None, false, &vec![]), Ok(()));
    assert_eq!(
        check_startup(&some("http://u@a.b"), &None, false, &vec![]),
        fails("public_url must not contain username")
    );
}

#[test]
fn event_streams_are_not_cached() {
    assert!(is_event_stream(&some("text/event-stream; charset=utf-8")));
    assert!(!is_event_stream(&some("application/json")));
    assert!(!is_event_stream(&None));
    assert_eq!(EVENT_STREAM_CACHE_CONTROL, "no-cache, no-transform");
    assert!(is_tools_list(&some("tools/list")));
    assert!(!is_tools_list(&some("tools/call")) && !is_tools_list(&None));
    assert_eq!(scan_protocol_version(&None), "2026-07-28");
    assert_eq!(scan_protocol_version(&some("2025-06-18")), "2025-06-18");
}

#[test]
fn plain_tools_list_is_completed() {
    let request = object(vec![
        ("jsonrpc", str("2.0")),
        ("id", str("d2")),
        ("method", str("tools/list")),
        ("params", object(vec![])),
    ]);
    let full = complete_request(request, "2026-07-28");
    let expected = "{\"jsonrpc\":\"2.0\",\"id\":\"d2\",\"method\":\"tools/list\",\"params\":{\"_meta\":{\"io.modelcontextprotocol/protocolVersion\":\"2026-07-28\",\"io.modelcontextprotocol/clientCapabilities\":{}}}}";
    assert_eq!(render(&full), expected);
    assert_eq!(render(&complete_request(full, "2024-11-05")), expected);
}

#[test]
fn completion_keeps_what_is_there() {
    let request = object(vec![
        ("method", str("tools/list")),
        (
            "params",
            object(vec![(
                "_meta",
                object(vec![("io.modelcontextprotocol/protocolVersion", str("x"))]),
            )]),
        ),
    ]);
    assert_eq!(
        render(&complete_request(request, "y")),
        "{\"method\":\"tools/list\",\"params\":{\"_meta\":{\"io.modelcontextprotocol/protocolVersion\":\"x\",\"io.modelcontextprotocol/clientCapabilities\":{}}}}"
    );
}

#[test]
fn escapes_by_style() {
    let raw = "<a b=\"c\">&'%\\";
    assert_eq!(escape(Escape::Html, raw), "&lt;a b=&quot;c&quot;&gt;&amp;'%\\");
    assert_eq!(escape(Escape::Xml, raw), "&lt;a b=&quot;c&quot;&gt;&amp;&apos;%\\");
    assert_eq!(escape(Escape::Systemd, raw), "<a b=\\\"c\\\">&'%%\\\\");
}

/// The value that JSON text stands for.
fn value(bytes: &[u8]) -> serde_json::Value {
    serde_json::from_slice(bytes).unwrap()
}

#[test]
fn tools_list_bodies_are_completed() {
    let list = r#"{"jsonrpc":"2.0","id":"d2","method":"tools/list","params":{}}"#;
    let full = complete_body(&list.as_bytes().to_vec(), "2026-07-28").unwrap();
    assert_eq!(
        value(&full),
        value(br#"{"jsonrpc":"2.0","id":"d2","method":"tools/list","params":{"_meta":{"io.modelcontextprotocol/protocolVersion":"2026-07-28","io.modelcontextprotocol/clientCapabilities":{}}}}"#)
    );
    let again = complete_body(&full, "2024-11-05").unwrap();
    assert_eq!(value(&again), value(&full));
    for bad in ["", "{", "nonsense", "{} {}", "1e999", "\u{feff}{}"] {
        assert_eq!(complete_body(&bad.as_bytes().to_vec(), "v"), None);
    }
    assert_eq!(complete_body(&vec![b'"', 0xff, b'"'], "v"), None);
}

#[test]
fn bodies_keep_their_values() {
    let texts = [
        "null",
        "true",
        "[]",
        "0",
        "-1",
        "18446744073709551615",
        "-9223372036854775808",
        "0.1",
        "-0.0",
        "1.0",
        "1e300",
        "2.2250738585072014e-308",
        "5e-324",
        "1.7976931348623157e308",
        "123456789.12345679",
        "0.30000000000000004",
        "100000000000000000000",
        "\"\\u0000 \\\"\\\\ \\ud83d\\ude00\"",
        "{\"a\":{\"b\":[1,2.5,null]},\"params\":[{}]}",
        "{\"params\":{\"_meta\":3,\"x\":1.5}}",
        "{\"a\":1,\"a\":2}",
    ];
    for text in texts {
        let out = complete_body(&text.as_bytes().to_vec(), "v").unwrap();
        assert_eq!(out, serde_json::to_vec(&value(text.as_bytes())).unwrap());
    }
    let mut tricky: Vec<String> = Vec::new();
    for i in 1..2000u64 {
        tricky.push(format!("{}e{}", i * 9_007_199_254_741 + 7, (i % 600) as i64 - 320));
    }
    let text = format!("[{}]", tricky.join(","));
    let out = complete_body(&text.as_bytes().to_vec(), "v").unwrap();
    assert_eq!(out, serde_json::to_vec(&value(text.as_bytes())).unwrap());
}

#[test]
fn deep_bodies_are_refused() {
    let nested = |n: usize| format!("{}{}", "[".repeat(n), "]".repeat(n)).into_bytes();
    assert_eq!(complete_body(&nested(127), "v"), Some(nested(127)));
    assert_eq!(complete_body(&nested(128), "v"), None);

    let mut deep = Json::Null;
    for _ in 0..128 {
        deep = Json::Array(vec![deep]);
    }
    assert!(json_text(Json::Array(vec![deep])).is_none());
}

#[test]
fn values_are_sent_as_json() {
    let sent = |json: Json| json_text(json).map(|bytes| String::from_utf8(bytes).unwrap());
    assert_eq!(sent(Json::Number("3600".to_string())), some("3600"));
    assert_eq!(sent(Json::Float("2.5".to_string())), some("2.5"));
    assert_eq!(sent(str("a\"b")), some("\"a\\\"b\""));
    assert_eq!(sent(object(vec![("a", Json::Array(vec![Json::Null]))])), some("{\"a\":[null]}"));
    assert_eq!(sent(Json::Number("x".to_string())), None);
    assert_eq!(sent(Json::Array(vec![Json::Float("nan".to_string())])), None);
    let mut deep = Json::Bool(true);
    for _ in 0..128 {
        deep = Json::Array(vec![deep]);
    }
    assert_eq!(sent(deep).unwrap().len(), 260);
}
