use llm_kernel::install::wizard::{generate_mcp_config, mcp_document, server_entry, AgentKind, McpConfig};
use llm_kernel::json::JsonValue;
use llm_kernel::mcp::auth::{constant_time_eq, BearerAuth};
use llm_kernel::mcp::http::{
    decode_header_value, origin_allowed, validate_modern_headers, BodyValue, HeaderRejection,
};
use llm_kernel::mcp::notification::McpNotification;
use llm_kernel::mcp::server::{
    is_cacheable_method, is_supported_version, legacy_protocol_versions, modern_result_shape,
    negotiate_protocol_version, supported_protocol_versions, LATEST_PROTOCOL_VERSION,
};
use llm_kernel::mcp::transport::{
    batch_error, batch_rejected, check_initialized, read_limited_line, route_error, route_request, ByteCursor, LineTooLong,
    RpcRequestView, RpcRoute,
};
use llm_kernel::{name, version};

// ── Bearer authentication ─────────────────────────────

#[test]
fn validate_correct_token() {
    let auth = BearerAuth::new("my-secret-token");
    assert!(auth.validate("Bearer my-secret-token"));
}

#[test]
fn reject_wrong_token() {
    let auth = BearerAuth::new("correct");
    assert!(!auth.validate("Bearer wrong"));
}

#[test]
fn reject_missing_prefix() {
    let auth = BearerAuth::new("token");
    assert!(!auth.validate("token"));
    assert!(!auth.validate("Basic token"));
}

#[test]
fn scheme_match_is_case_insensitive() {
    let auth = BearerAuth::new("token");
    assert!(auth.validate("bearer token"));
    assert!(auth.validate("BEARER token"));
    assert!(auth.validate("Bearer token"));
}

#[test]
fn generate_produces_32_char_hex() {
    let auth = BearerAuth::try_generate().expect("OS random source");
    let token = auth.token();
    assert_eq!(token.len(), 32);
    assert!(token.chars().all(|c| c.is_ascii_hexdigit()));
}

#[test]
fn generate_unique() {
    let a = BearerAuth::try_generate().expect("OS random source");
    let b = BearerAuth::try_generate().expect("OS random source");
    assert_ne!(a.token(), b.token());
}

#[test]
fn token_from_bytes_is_lowercase_hex() {
    let auth = BearerAuth::from_bytes(&[0x00, 0x0f, 0xa5, 0xff]);
    assert_eq!(auth.token(), "000fa5ff");
    assert!(auth.validate("Bearer 000fa5ff"));
}

#[test]
fn constant_time_eq_compares_whole_strings() {
    assert!(constant_time_eq("abc", "abc"));
    assert!(!constant_time_eq("abc", "abd"));
    assert!(!constant_time_eq("abc", "ab"));
    assert!(constant_time_eq("", ""));
}

// ── Line reading ──────────────────────────────────────

#[test]
fn read_limited_line_bounds_memory_before_newline() {
    // A 40-byte "line" with no newline against a 10-byte cap must fail —
    // the buffer never grows past the cap waiting for `\n`.
    let mut reader = ByteCursor::new(vec![b'x'; 40]);
    let mut buf = Vec::new();
    let err = read_limited_line(&mut reader, 10, &mut buf).unwrap_err();
    assert_eq!(err, LineTooLong { max: 10 });
    assert!(buf.len() <= 10, "buffer grew past the cap: {}", buf.len());
}

#[test]
fn read_limited_line_reads_normal_lines() {
    let mut reader = ByteCursor::new(b"{\"a\":1}\n{\"b\":2}\ntrailing".to_vec());
    let mut buf = Vec::new();
    assert_eq!(read_limited_line(&mut reader, 1024, &mut buf).unwrap(), 8);
    assert_eq!(buf, b"{\"a\":1}\n");
    assert_eq!(read_limited_line(&mut reader, 1024, &mut buf).unwrap(), 8);
    assert_eq!(buf, b"{\"b\":2}\n");
    // Final unterminated line, then EOF (0).
    assert_eq!(read_limited_line(&mut reader, 1024, &mut buf).unwrap(), 8);
    assert_eq!(buf, b"trailing");
    assert_eq!(read_limited_line(&mut reader, 1024, &mut buf).unwrap(), 0);
}

#[test]
fn read_limited_line_accepts_a_line_of_exactly_the_cap() {
    let mut reader = ByteCursor::new(b"abcd\nrest".to_vec());
    let mut buf = Vec::new();
    assert_eq!(read_limited_line(&mut reader, 5, &mut buf).unwrap(), 5);
    assert_eq!(buf, b"abcd\n");
    assert!(read_limited_line(&mut reader, 3, &mut buf).is_err());
    assert_eq!(read_limited_line(&mut reader, 4, &mut buf).unwrap(), 4);
}

// ── Routing ───────────────────────────────────────────

fn request(method: &str, has_id: bool, meta: Option<&str>) -> RpcRequestView {
    RpcRequestView {
        is_object: true,
        has_id,
        method: method.to_string(),
        meta_version: meta.map(|s| s.to_string()),
    }
}

#[test]
fn routes_follow_the_method_table() {
    assert_eq!(route_request(&request("initialize", true, None), true), RpcRoute::Initialize);
    assert_eq!(route_request(&request("ping", true, None), true), RpcRoute::Ping);
    assert_eq!(route_request(&request("tools/list", true, None), true), RpcRoute::ToolsList);
    assert_eq!(route_request(&request("tools/call", true, None), true), RpcRoute::ToolsCall);
    assert_eq!(
        route_request(&request("resources/templates/list", true, None), true),
        RpcRoute::ResourceTemplatesList
    );
    assert_eq!(route_request(&request("nope", true, None), true), RpcRoute::MethodNotFound);
}

#[test]
fn notifications_and_non_objects() {
    assert_eq!(route_request(&request("tools/list", false, None), true), RpcRoute::NoResponse);
    let mut not_object = request("", false, None);
    not_object.is_object = false;
    assert_eq!(route_request(&not_object, true), RpcRoute::InvalidRequest);
}

#[test]
fn modern_requests_are_routed_by_revision() {
    let v = Some(LATEST_PROTOCOL_VERSION);
    assert_eq!(route_request(&request("ping", true, v), true), RpcRoute::PingRemoved);
    assert_eq!(route_request(&request("server/discover", true, v), true), RpcRoute::Discover);
    assert_eq!(
        route_request(&request("subscriptions/listen", true, v), true),
        RpcRoute::SubscriptionListen
    );
    assert_eq!(
        route_request(&request("tools/list", true, Some("1999-01-01")), true),
        RpcRoute::UnsupportedVersion
    );
    // `initialize` is always legacy, whatever `_meta` says.
    assert_eq!(
        route_request(&request("initialize", true, Some("1999-01-01")), true),
        RpcRoute::Initialize
    );
    // Without `_meta`, `server/discover` is not a legacy method.
    assert_eq!(route_request(&request("server/discover", true, None), true), RpcRoute::MethodNotFound);
}

#[test]
fn lifecycle_gate_and_batches() {
    assert!(check_initialized(&request("tools/list", true, None), false));
    assert!(!check_initialized(&request("initialize", true, None), false));
    assert!(!check_initialized(&request("tools/list", false, None), false));
    assert!(!check_initialized(&request("tools/list", true, Some(LATEST_PROTOCOL_VERSION)), false));
    assert!(!check_initialized(&request("tools/list", true, None), true));
    let legacy = [request("ping", true, None), request("tools/list", true, None)];
    assert!(!batch_rejected(&legacy));
    let mixed = [request("ping", true, None), request("tools/list", true, Some(LATEST_PROTOCOL_VERSION))];
    assert!(batch_rejected(&mixed));
    assert!(!batch_rejected(&[]));
}

// ── Protocol versions ─────────────────────────────────

#[test]
fn version_negotiation() {
    assert_eq!(negotiate_protocol_version(Some("2025-03-26")), "2025-03-26");
    assert_eq!(negotiate_protocol_version(Some("2026-07-28")), "2025-06-18");
    assert_eq!(negotiate_protocol_version(Some("bogus")), "2025-06-18");
    assert_eq!(negotiate_protocol_version(None), "2025-06-18");
    assert!(is_supported_version("2026-07-28"));
    assert!(!is_supported_version("2023-01-01"));
    assert_eq!(supported_protocol_versions()[0], LATEST_PROTOCOL_VERSION);
    assert_eq!(legacy_protocol_versions(), vec!["2025-06-18", "2025-03-26", "2024-11-05"]);
}

#[test]
fn modern_result_fields() {
    assert!(is_cacheable_method("tools/list"));
    assert!(!is_cacheable_method("tools/call"));
    let s = modern_result_shape(LATEST_PROTOCOL_VERSION, "tools/list");
    assert!(s.result_type && s.cache_fields);
    let s = modern_result_shape(LATEST_PROTOCOL_VERSION, "tools/call");
    assert!(s.result_type && !s.cache_fields);
}

#[test]
fn notification_methods() {
    assert_eq!(McpNotification::ToolsListChanged.method(), "notifications/tools/list_changed");
    assert_eq!(
        McpNotification::ResourcesListChanged.method(),
        "notifications/resources/list_changed"
    );
}

// ── HTTP header checks ────────────────────────────────

#[test]
fn origin_validation_blocks_cross_site_browsers() {
    assert!(origin_allowed(None), "no Origin (non-browser client) passes");
    assert!(origin_allowed(Some("http://localhost:3000")));
    assert!(origin_allowed(Some("http://127.0.0.1:8080")));
    assert!(!origin_allowed(Some("https://evil.example.com")), "DNS-rebinding origin must be rejected");
    assert!(!origin_allowed(Some("null")));
    // Suffix trickery must not pass.
    assert!(!origin_allowed(Some("https://localhost.evil.com")));
    // IPv6 loopback — a naive `split(':')` would see "[" and reject it.
    assert!(origin_allowed(Some("http://[::1]:3000")), "IPv6 loopback must pass");
    assert!(origin_allowed(Some("http://[::1]")), "IPv6 loopback (no port) must pass");
    assert!(!origin_allowed(Some("http://[fe80::1]:3000")), "non-loopback IPv6 must be rejected");
}

#[test]
fn decode_header_value_handles_base64_sentinel() {
    // "echo" → ZWNobw==
    assert_eq!(decode_header_value("=?base64?ZWNobw==?="), "echo");
    assert_eq!(decode_header_value("echo"), "echo");
    // Malformed sentinel falls back to the raw value.
    assert_eq!(decode_header_value("=?base64?!!!?="), "=?base64?!!!?=");
}

#[test]
fn decode_header_value_keeps_non_utf8_payloads_raw() {
    // "/w==" decodes to the single byte 0xFF, which is not UTF-8.
    assert_eq!(decode_header_value("=?base64?/w==?="), "=?base64?/w==?=");
    assert_eq!(decode_header_value("=?base64??="), "");
}

#[test]
fn modern_headers_must_mirror_the_body() {
    let v = LATEST_PROTOCOL_VERSION;
    let echo = BodyValue::Str("echo".to_string());
    let absent = BodyValue::Absent;
    assert_eq!(
        validate_modern_headers(v, "tools/call", Some(v), Some("tools/call"), Some("echo"), &echo, &absent),
        Ok(())
    );
    assert_eq!(
        validate_modern_headers(
            v,
            "tools/call",
            Some(v),
            Some("tools/call"),
            Some("=?base64?ZWNobw==?="),
            &echo,
            &absent
        ),
        Ok(())
    );
    assert_eq!(
        validate_modern_headers("1999-01-01", "tools/list", None, None, None, &absent, &absent),
        Err(HeaderRejection::UnsupportedVersion)
    );
    assert_eq!(
        validate_modern_headers(v, "tools/list", None, Some("tools/list"), None, &absent, &absent),
        Err(HeaderRejection::MissingProtocolVersion)
    );
    assert_eq!(
        validate_modern_headers(v, "tools/list", Some("2025-06-18"), Some("tools/list"), None, &absent, &absent),
        Err(HeaderRejection::ProtocolVersionMismatch)
    );
    assert_eq!(
        validate_modern_headers(v, "tools/list", Some(v), None, None, &absent, &absent),
        Err(HeaderRejection::MissingMethod)
    );
    assert_eq!(
        validate_modern_headers(v, "tools/list", Some(v), Some("tools/call"), None, &absent, &absent),
        Err(HeaderRejection::MethodMismatch)
    );
    assert_eq!(
        validate_modern_headers(v, "tools/call", Some(v), Some("tools/call"), None, &echo, &absent),
        Err(HeaderRejection::MissingName)
    );
    assert_eq!(
        validate_modern_headers(v, "tools/call", Some(v), Some("tools/call"), Some("other"), &echo, &absent),
        Err(HeaderRejection::NameMismatch)
    );
    let uri = BodyValue::Str("docs://x".to_string());
    assert_eq!(
        validate_modern_headers(v, "resources/read", Some(v), Some("resources/read"), Some("docs://x"), &absent, &uri),
        Ok(())
    );
    assert_eq!(HeaderRejection::UnsupportedVersion.code(), -32022);
    assert_eq!(HeaderRejection::NameMismatch.code(), -32020);
}

// ── Install wizard ────────────────────────────────────

fn test_config() -> McpConfig {
    McpConfig {
        server_name: "test-server".into(),
        command: "test-server".into(),
        args: vec!["--stdio".into()],
        env: vec![("TEST_API_KEY".into(), "${TEST_API_KEY}".into())],
    }
}

#[test]
fn all_agents_covered() {
    assert_eq!(AgentKind::all().len(), 5);
    for agent in AgentKind::all() {
        let config = test_config();
        let json = generate_mcp_config(agent, &config);
        assert!(json.contains("test-server"), "missing server name for {:?}", agent);
        assert!(json.contains("TEST_API_KEY"), "missing env for {:?}", agent);
    }
}

#[test]
fn claude_desktop_format() {
    let json = generate_mcp_config(&AgentKind::ClaudeDesktop, &test_config());
    let parsed: serde_json::Value = serde_json::from_str(&json).unwrap();
    assert!(parsed["mcpServers"]["test-server"].is_object());
    assert_eq!(parsed["mcpServers"]["test-server"]["command"], "test-server");
}

#[test]
fn no_env_when_empty() {
    let config = McpConfig {
        server_name: "bare".into(),
        command: "bare".into(),
        args: vec![],
        env: vec![],
    };
    let json = generate_mcp_config(&AgentKind::Cursor, &config);
    assert!(!json.contains("env"), "env should be absent when empty");
}

#[test]
fn agent_display_names() {
    assert_eq!(AgentKind::ClaudeDesktop.display_name(), "Desktop App");
    assert_eq!(AgentKind::Cursor.display_name(), "Cursor");
}

#[test]
fn agent_config_paths() {
    assert_eq!(AgentKind::Cursor.config_path(), ".cursor/mcp.json");
    assert_eq!(AgentKind::Cline.config_path(), ".cline/mcp.json");
}

fn repeated_env_config() -> McpConfig {
    McpConfig {
        server_name: "srv".into(),
        command: "run".into(),
        args: vec!["-a".into(), "-b".into()],
        env: vec![("K".into(), "1".into()), ("J".into(), "3".into()), ("K".into(), "2".into())],
    }
}

#[test]
fn mcp_document_has_one_server_under_its_name() {
    let doc = mcp_document(&repeated_env_config());
    let JsonValue::Object(root) = doc else { panic!("root is not an object") };
    assert_eq!(root.len(), 1);
    assert_eq!(root[0].0, "mcpServers");
    let JsonValue::Object(servers) = &root[0].1 else { panic!("mcpServers is not an object") };
    assert_eq!(servers.len(), 1);
    assert_eq!(servers[0].0, "srv");
}

#[test]
fn server_entry_lists_command_args_env() {
    let JsonValue::Object(members) = server_entry(&repeated_env_config()) else { panic!("not an object") };
    let keys: Vec<&str> = members.iter().map(|(k, _)| k.as_str()).collect();
    assert_eq!(keys, vec!["command", "args", "env"]);
    assert!(matches!(&members[0].1, JsonValue::Str(c) if c == "run"));
    let JsonValue::Array(args) = &members[1].1 else { panic!("args is not an array") };
    assert_eq!(args.len(), 2);
    let JsonValue::Object(env) = &members[2].1 else { panic!("env is not an object") };
    assert_eq!(env.len(), 3);
}

#[test]
fn generated_config_reads_back() {
    let json = generate_mcp_config(&AgentKind::Cline, &repeated_env_config());
    let v: serde_json::Value = serde_json::from_str(&json).unwrap();
    let servers = v["mcpServers"].as_object().unwrap();
    assert_eq!(servers.len(), 1);
    let e = &servers["srv"];
    assert_eq!(e["command"], "run");
    assert_eq!(e["args"].as_array().unwrap().len(), 2);
    assert_eq!(e["args"][0], "-a");
    assert_eq!(e["args"][1], "-b");
    // A repeated variable keeps the value given last.
    assert_eq!(e["env"].as_object().unwrap().len(), 2);
    assert_eq!(e["env"]["K"], "2");
    assert_eq!(e["env"]["J"], "3");
    // Pretty-printed: one member per line.
    assert!(json.contains('\n'));
}

#[test]
fn generated_config_without_env_has_no_env_member() {
    let config = McpConfig { server_name: "s".into(), command: "c".into(), args: vec![], env: vec![] };
    let v: serde_json::Value = serde_json::from_str(&generate_mcp_config(&AgentKind::Copilot, &config)).unwrap();
    assert!(v["mcpServers"]["s"].get("env").is_none());
    assert_eq!(v["mcpServers"]["s"]["args"].as_array().unwrap().len(), 0);
}

#[test]
fn route_errors_match_their_routes() {
    assert_eq!(
        route_error(RpcRoute::MethodNotFound, "foo/bar"),
        Some((-32601, "Method not found: foo/bar".to_string()))
    );
    assert_eq!(
        route_error(RpcRoute::PingRemoved, "ping"),
        Some((-32601, "Method not found: ping (removed in protocol 2026-07-28)".to_string()))
    );
    assert_eq!(
        route_error(RpcRoute::InvalidRequest, ""),
        Some((-32600, "Invalid Request: expected a JSON object".to_string()))
    );
    assert_eq!(
        route_error(RpcRoute::UnsupportedVersion, "tools/list"),
        Some((-32022, "Unsupported protocol version".to_string()))
    );
    assert_eq!(route_error(RpcRoute::ToolsList, "tools/list"), None);
    assert_eq!(route_error(RpcRoute::NoResponse, "notifications/initialized"), None);
}

#[test]
fn crate_identity() {
    assert_eq!(name(), "llm-kernel");
    assert_eq!(version(), "0.1.0");
}

// ── Server-side checks ────────────────────────────────

use llm_kernel::mcp::auth::check_auth;
use llm_kernel::mcp::server::{check_tool_args, ArgumentsShape};

#[test]
fn no_auth_by_default_and_bearer_when_configured() {
    assert!(check_auth(None, None));
    assert!(check_auth(None, Some("anything")));
    let auth = BearerAuth::new("secret");
    assert!(check_auth(Some(&auth), Some("Bearer secret")));
    assert!(!check_auth(Some(&auth), Some("Bearer other")));
    assert!(!check_auth(Some(&auth), None));
}

#[test]
fn generated_token_validates_under_bearer() {
    let auth = BearerAuth::try_generate().expect("OS random source");
    let header = format!("Bearer {}", auth.token());
    assert!(auth.validate(&header));
}

#[test]
fn tool_arguments_are_checked_against_the_schema() {
    let required = vec!["path".to_string(), "mode".to_string()];
    let both = ArgumentsShape::Object(vec!["mode".to_string(), "path".to_string()]);
    assert_eq!(check_tool_args("open", true, Some(&required), &both), Ok(()));
    let partial = ArgumentsShape::Object(vec!["path".to_string()]);
    assert_eq!(
        check_tool_args("open", true, Some(&required), &partial),
        Err("tool 'open' is missing required argument 'mode'".to_string())
    );
    assert_eq!(
        check_tool_args("open", true, Some(&required), &ArgumentsShape::Null),
        Err("tool 'open' is missing required argument 'path'".to_string())
    );
    assert_eq!(
        check_tool_args("open", true, None, &ArgumentsShape::Other),
        Err("tool 'open' expects an object for arguments".to_string())
    );
    assert_eq!(check_tool_args("open", true, None, &ArgumentsShape::Null), Ok(()));
    assert_eq!(check_tool_args("open", false, Some(&required), &ArgumentsShape::Other), Ok(()));
}

use llm_kernel::mcp::http::{http_gate, is_modern_method, HttpGate};

const MODERN: &str = "2026-07-28";

fn gate(origin: Option<&str>, authorized: bool, method: &str, meta: Option<&str>, has_id: bool) -> HttpGate {
    let name = BodyValue::Str("echo".to_string());
    http_gate(origin, authorized, method, meta, has_id, meta, Some(method), Some("echo"), &name, &BodyValue::Absent)
}

#[test]
fn http_gate_checks_origin_then_auth() {
    assert_eq!(gate(Some("https://evil.example"), true, "tools/list", None, true), HttpGate::ForbiddenOrigin);
    assert_eq!(gate(Some("null"), true, "tools/list", None, true), HttpGate::ForbiddenOrigin);
    assert_eq!(gate(Some("http://[::1]:3000"), false, "tools/list", None, true), HttpGate::Unauthorized);
    assert_eq!(gate(None, true, "tools/list", None, true), HttpGate::Dispatch);
}

#[test]
fn http_gate_holds_modern_requests_to_the_header_rules() {
    assert_eq!(gate(None, true, "tools/call", Some(MODERN), true), HttpGate::Dispatch);
    assert_eq!(gate(None, true, "subscriptions/listen", Some(MODERN), true), HttpGate::Subscription);
    assert_eq!(gate(None, true, "ping", Some(MODERN), true), HttpGate::MethodNotFound);
    assert_eq!(
        gate(None, true, "tools/list", Some("1999-01-01"), true),
        HttpGate::BadHeaders(HeaderRejection::UnsupportedVersion)
    );
    let absent = BodyValue::Absent;
    assert_eq!(
        http_gate(None, true, "tools/list", Some(MODERN), true, None, Some("tools/list"), None, &absent, &absent),
        HttpGate::BadHeaders(HeaderRejection::MissingProtocolVersion)
    );
    // Notifications, `initialize` and legacy requests are not held to them.
    assert_eq!(gate(None, true, "ping", Some(MODERN), false), HttpGate::Dispatch);
    assert_eq!(
        http_gate(None, true, "initialize", Some(MODERN), true, None, None, None, &absent, &absent),
        HttpGate::Dispatch
    );
    assert_eq!(gate(None, true, "ping", None, true), HttpGate::Dispatch);
}

#[test]
fn modern_method_membership() {
    for m in ["server/discover", "tools/call", "resources/templates/list", "subscriptions/listen"] {
        assert!(is_modern_method(m), "{m}");
    }
    for m in ["ping", "initialize", "tools", ""] {
        assert!(!is_modern_method(m), "{m}");
    }
}

#[test]
fn debug_never_prints_token() {
    let auth = BearerAuth::new("super-secret-token");
    let dbg = auth.debug_string();
    assert!(!dbg.contains("super-secret-token"), "{dbg}");
}

// The dispatcher answers from these routes: `InvalidRequest` is `-32600`,
// `PingRemoved` is `-32601`, `NoResponse` is silence.

#[test]
fn non_object_request_gets_invalid_request_not_silence() {
    // The batch `[1, 2]`: two non-objects.
    let item = RpcRequestView { is_object: false, has_id: false, method: String::new(), meta_version: None };
    assert!(!batch_rejected(&[item.clone(), item.clone()]));
    assert_eq!(route_request(&item, true), RpcRoute::InvalidRequest);
}

#[test]
fn notification_without_id_gets_no_response() {
    assert_eq!(route_request(&request("notifications/initialized", false, None), true), RpcRoute::NoResponse);
}

#[test]
fn modern_ping_is_method_not_found() {
    assert_eq!(route_request(&request("ping", true, Some("2026-07-28")), true), RpcRoute::PingRemoved);
    assert_eq!(route_request(&request("ping", true, None), true), RpcRoute::Ping);
}

#[test]
fn modern_request_inside_batch_rejects_the_batch() {
    assert!(batch_rejected(&[request("tools/list", true, Some("2026-07-28"))]));
    assert!(!batch_rejected(&[request("tools/list", true, None)]));
}

#[test]
fn rejected_batch_answers_invalid_request() {
    let (code, message) = batch_error();
    assert_eq!(code, -32600);
    assert_eq!(message, "Invalid Request: JSON-RPC batches are not supported by protocol revisions after 2024-11-05");
}
