//! Decisions of the Streamable HTTP transport: which browser origins may
//! drive the server, how header values are decoded, and whether a modern
//! request's standard headers agree with its body.
use base64::Engine;
use vstd::prelude::*;

use crate::mcp::server::{is_supported_version, supported_versions};
use crate::text::{
    chars_of, find_chars, find_from, lemma_find_from_bounds, opt_view, same_text, slice_to_vec, string_from_chars,
};

verus! {

// ── Origin check ──────────────────────────────────────

/// The host of an origin's `host[:port]` part: the text between `[` and the
/// next `]` for a bracketed IPv6 host, else the text before the first `:`.
pub open spec fn origin_host(host_port: Seq<char>) -> Seq<char> {
    if host_port.len() > 0 && host_port[0] == '[' {
        let rest = host_port.drop_first();
        match find_from(rest, seq![']'], 0) {
            Some(e) => rest.take(e),
            None => rest,
        }
    } else {
        match find_from(host_port, seq![':'], 0) {
            Some(e) => host_port.take(e),
            None => host_port,
        }
    }
}

/// Whether a request with this `Origin` header may proceed: no header (not
/// a browser), or a loopback host (`localhost`, `127.0.0.1`, `::1`) after the
/// first `://`.
pub open spec fn origin_allowed_spec(origin: Option<Seq<char>>) -> bool {
    match origin {
        None => true,
        Some(o) => if o == "null"@ {
            false
        } else {
            match find_from(o, seq![':', '/', '/'], 0) {
                None => false,
                Some(i) => {
                    let h = origin_host(o.skip(i + 3));
                    h == "localhost"@ || h == "127.0.0.1"@ || h == "::1"@
                },
            }
        },
    }
}

fn chars_same_text(v: &[char], lit: &str) -> (b: bool)
    ensures
        b == (v@ == lit@),
{
    let s = string_from_chars(v);
    same_text(s.as_str(), lit)
}

/// Reject cross-origin browser requests: only loopback origins may drive a
/// local MCP server. Non-browser clients send no `Origin`.
pub fn origin_allowed(origin: Option<&str>) -> (ok: bool)
    ensures
        ok == origin_allowed_spec(match origin {
            Some(o) => Some(o@),
            None => None,
        }),
{
    let o = match origin {
        None => return true,
        Some(o) => o,
    };
    if same_text(o, "null") {
        return false;
    }
    let v = chars_of(o);
    let sep: Vec<char> = vec![':', '/', '/'];
    assert(sep@ == seq![':', '/', '/']);
    let i = match find_chars(v.as_slice(), sep.as_slice(), 0) {
        None => return false,
        Some(i) => i,
    };
    proof {
        lemma_find_from_bounds(v@, sep@, 0);
        assert(sep@.len() == 3);
        assert(i + 3 <= v.len());
    }
    let hp = slice_to_vec(v.as_slice(), i + 3, v.len());
    assert(hp@ == v@.skip(i + 3));
    let host: Vec<char> = if hp.len() > 0 && hp[0] == '[' {
        let rest = slice_to_vec(hp.as_slice(), 1, hp.len());
        assert(rest@ == hp@.drop_first());
        let close: Vec<char> = vec![']'];
        assert(close@ == seq![']']);
        match find_chars(rest.as_slice(), close.as_slice(), 0) {
            Some(e) => {
                proof {
                    lemma_find_from_bounds(rest@, close@, 0);
                }
                slice_to_vec(rest.as_slice(), 0, e)
            },
            None => rest,
        }
    } else {
        let colon: Vec<char> = vec![':'];
        assert(colon@ == seq![':']);
        match find_chars(hp.as_slice(), colon.as_slice(), 0) {
            Some(e) => {
                proof {
                    lemma_find_from_bounds(hp@, colon@, 0);
                }
                slice_to_vec(hp.as_slice(), 0, e)
            },
            None => hp,
        }
    };
    assert(host@ == origin_host(v@.skip(i + 3)));
    chars_same_text(host.as_slice(), "localhost") || chars_same_text(host.as_slice(), "127.0.0.1")
        || chars_same_text(host.as_slice(), "::1")
}

// ── Header value decoding ─────────────────────────────

/// The bytes that standard-alphabet, padded Base64 decoding
/// (`base64::engine::general_purpose::STANDARD`) gives for a text, or `None`
/// when the text is not valid Base64 for that engine.
pub uninterp spec fn base64_standard_decode(text: Seq<char>) -> Option<Seq<u8>>;

/// Decode Base64 text with the standard engine (`Engine::decode` of
/// `base64::engine::general_purpose::STANDARD`). Claimed: the result is the
/// named decoding of exactly this text.
#[verifier::external_body]
fn base64_decode(text: &str) -> (r: Option<Vec<u8>>)
    ensures
        match r {
            Some(b) => base64_standard_decode(text@) == Some(b@),
            None => base64_standard_decode(text@) is None,
        },
{
    base64::engine::general_purpose::STANDARD.decode(text).ok()
}

/// `String::from_utf8`: the text of valid UTF-8 bytes, `None` otherwise.
#[verifier::external_body]
fn utf8_to_string(b: Vec<u8>) -> (r: Option<String>)
    ensures
        r is Some <==> vstd::utf8::valid_utf8(b@),
        r matches Some(s) ==> s@ == vstd::utf8::decode_utf8(b@),
{
    String::from_utf8(b).ok()
}

/// A header value as carried: a `=?base64?…?=` sentinel wraps Base64 of the
/// UTF-8 text; anything else (including a sentinel that does not decode to
/// UTF-8) is the text itself.
pub open spec fn decoded_header(raw: Seq<char>) -> Seq<char> {
    let pre = "=?base64?"@;
    let suf = "?="@;
    if raw.len() >= pre.len() + suf.len() && raw.take(pre.len() as int) == pre && raw.skip(
        raw.len() - suf.len(),
    ) == suf {
        let inner = raw.subrange(pre.len() as int, raw.len() - suf.len());
        match base64_standard_decode(inner) {
            Some(b) => if vstd::utf8::valid_utf8(b) {
                vstd::utf8::decode_utf8(b)
            } else {
                raw
            },
            None => raw,
        }
    } else {
        raw
    }
}

/// Decode an `Mcp-Name` (or `Mcp-Param-*`) header value.
pub fn decode_header_value(raw: &str) -> (s: String)
    ensures
        s@ == decoded_header(raw@),
{
    proof {
        reveal_strlit("=?base64?");
        reveal_strlit("?=");
    }
    let v = chars_of(raw);
    let n = v.len();
    let has_pre = n >= 11 && v[0] == '=' && v[1] == '?' && v[2] == 'b' && v[3] == 'a' && v[4]
        == 's' && v[5] == 'e' && v[6] == '6' && v[7] == '4' && v[8] == '?';
    let has_suf = n >= 11 && v[n - 2] == '?' && v[n - 1] == '=';
    proof {
        let pre = "=?base64?"@;
        let suf = "?="@;
        assert(pre.len() == 9 && pre[0] == '=' && pre[1] == '?' && pre[2] == 'b' && pre[3] == 'a'
            && pre[4] == 's' && pre[5] == 'e' && pre[6] == '6' && pre[7] == '4' && pre[8] == '?');
        assert(suf.len() == 2 && suf[0] == '?' && suf[1] == '=');
        if n >= 11 {
            let t = v@.take(9);
            if has_pre {
                assert(t =~= pre);
            } else {
                assert(t[0] == v@[0] && t[1] == v@[1] && t[2] == v@[2] && t[3] == v@[3] && t[4]
                    == v@[4] && t[5] == v@[5] && t[6] == v@[6] && t[7] == v@[7] && t[8] == v@[8]);
                assert(t != pre);
            }
            let u = v@.skip(n - 2);
            if has_suf {
                assert(u =~= suf);
            } else {
                assert(u[0] == v@[n - 2] && u[1] == v@[n - 1]);
                assert(u != suf);
            }
        }
    }
    if !(has_pre && has_suf) {
        return string_from_chars(v.as_slice());
    }
    let inner = slice_to_vec(v.as_slice(), 9, n - 2);
    let inner_s = string_from_chars(inner.as_slice());
    match base64_decode(inner_s.as_str()) {
        Some(bytes) => match utf8_to_string(bytes) {
            Some(text) => text,
            None => string_from_chars(v.as_slice()),
        },
        None => string_from_chars(v.as_slice()),
    }
}

// ── Modern request headers ────────────────────────────

/// A member of the request body, as far as header checks read it.
#[derive(Debug, Clone)]
pub enum BodyValue {
    /// The member is absent.
    Absent,
    /// The member is JSON `null`.
    Null,
    /// The member is a string.
    Str(String),
    /// The member is some other JSON value.
    Other,
}

/// Why a modern request's headers were rejected (all with HTTP 400).
#[derive(Debug, Clone, Copy, PartialEq, Eq, Structural)]
pub enum HeaderRejection {
    /// The body's `_meta` version is not supported (`-32022`).
    UnsupportedVersion,
    /// No `MCP-Protocol-Version` header (`-32020`).
    MissingProtocolVersion,
    /// `MCP-Protocol-Version` differs from the body's version (`-32020`).
    ProtocolVersionMismatch,
    /// No `Mcp-Method` header (`-32020`).
    MissingMethod,
    /// `Mcp-Method` differs from the body's method (`-32020`).
    MethodMismatch,
    /// No `Mcp-Name` header although the body names a target (`-32020`).
    MissingName,
    /// The decoded `Mcp-Name` differs from the body's target (`-32020`).
    NameMismatch,
}

impl HeaderRejection {
    /// The JSON-RPC error code of the rejection.
    pub fn code(&self) -> (c: i32)
        ensures
            c == if *self == HeaderRejection::UnsupportedVersion {
                -32022i32
            } else {
                -32020i32
            },
    {
        match self {
            HeaderRejection::UnsupportedVersion => -32022,
            _ => -32020,
        }
    }
}

/// The body member that `Mcp-Name` mirrors for a method: `params.name` for
/// `tools/call` and `prompts/get`, `params.uri` for `resources/read`.
pub open spec fn name_source(method: Seq<char>, name: BodyValue, uri: BodyValue) -> BodyValue {
    if method == "tools/call"@ || method == "prompts/get"@ {
        name
    } else if method == "resources/read"@ {
        uri
    } else {
        BodyValue::Absent
    }
}

/// The text a body member is compared as (non-strings compare as empty).
pub open spec fn body_text(v: BodyValue) -> Seq<char> {
    match v {
        BodyValue::Str(s) => s@,
        _ => Seq::empty(),
    }
}

/// The verdict on a modern request's headers.
pub open spec fn header_verdict(
    version: Seq<char>,
    method: Seq<char>,
    h_version: Option<Seq<char>>,
    h_method: Option<Seq<char>>,
    h_name: Option<Seq<char>>,
    name: BodyValue,
    uri: BodyValue,
) -> Option<HeaderRejection> {
    if !supported_versions().contains(version) {
        Some(HeaderRejection::UnsupportedVersion)
    } else if h_version is None {
        Some(HeaderRejection::MissingProtocolVersion)
    } else if h_version != Some(version) {
        Some(HeaderRejection::ProtocolVersionMismatch)
    } else if h_method is None {
        Some(HeaderRejection::MissingMethod)
    } else if h_method != Some(method) {
        Some(HeaderRejection::MethodMismatch)
    } else {
        let src = name_source(method, name, uri);
        if src is Absent || src is Null {
            None
        } else {
            match h_name {
                None => Some(HeaderRejection::MissingName),
                Some(h) => if decoded_header(h) != body_text(src) {
                    Some(HeaderRejection::NameMismatch)
                } else {
                    None
                },
            }
        }
    }
}

/// Validate the standard request headers of a modern request against its
/// body: the body's `_meta` version must be supported and repeated in
/// `MCP-Protocol-Version`, `Mcp-Method` must repeat the method, and
/// `Mcp-Name` must carry (possibly Base64-encoded) the body's `params.name` /
/// `params.uri` on the methods that have one.
pub fn validate_modern_headers(
    version: &str,
    method: &str,
    header_version: Option<&str>,
    header_method: Option<&str>,
    header_name: Option<&str>,
    params_name: &BodyValue,
    params_uri: &BodyValue,
) -> (r: Result<(), HeaderRejection>)
    ensures
        r is Ok <==> header_verdict(
            version@,
            method@,
            opt_view(header_version),
            opt_view(header_method),
            opt_view(header_name),
            *params_name,
            *params_uri,
        ) is None,
        r matches Err(e) ==> header_verdict(
            version@,
            method@,
            opt_view(header_version),
            opt_view(header_method),
            opt_view(header_name),
            *params_name,
            *params_uri,
        ) == Some(e),
{
    if !is_supported_version(version) {
        return Err(HeaderRejection::UnsupportedVersion);
    }
    match header_version {
        None => return Err(HeaderRejection::MissingProtocolVersion),
        Some(h) => {
            if !same_text(h, version) {
                return Err(HeaderRejection::ProtocolVersionMismatch);
            }
        },
    }
    match header_method {
        None => return Err(HeaderRejection::MissingMethod),
        Some(h) => {
            if !same_text(h, method) {
                return Err(HeaderRejection::MethodMismatch);
            }
        },
    }
    let src: &BodyValue = if same_text(method, "tools/call") || same_text(method, "prompts/get") {
        params_name
    } else if same_text(method, "resources/read") {
        params_uri
    } else {
        return Ok(());
    };
    assert(*src == name_source(method@, *params_name, *params_uri));
    let expected: &str = match src {
        BodyValue::Absent => return Ok(()),
        BodyValue::Null => return Ok(()),
        BodyValue::Str(s) => s.as_str(),
        BodyValue::Other => "",
    };
    proof {
        reveal_strlit("");
    }
    assert(expected@ == body_text(*src));
    match header_name {
        None => Err(HeaderRejection::MissingName),
        Some(h) => {
            let d = decode_header_value(h);
            if !same_text(d.as_str(), expected) {
                Err(HeaderRejection::NameMismatch)
            } else {
                Ok(())
            }
        },
    }
}

// ── The HTTP endpoint's gate ──────────────────────────

/// The methods served to modern (stateless) requests; `ping` and
/// `initialize` are legacy-only.
pub open spec fn modern_methods() -> Seq<Seq<char>> {
    seq![
        "server/discover"@,
        "tools/list"@,
        "tools/call"@,
        "resources/list"@,
        "resources/templates/list"@,
        "resources/read"@,
        "prompts/list"@,
        "prompts/get"@,
        "subscriptions/listen"@,
    ]
}

/// The methods served to modern requests.
pub fn modern_method_list() -> (v: Vec<&'static str>)
    ensures
        v@.map_values(|s: &str| s@) == modern_methods(),
{
    let v = vec![
        "server/discover",
        "tools/list",
        "tools/call",
        "resources/list",
        "resources/templates/list",
        "resources/read",
        "prompts/list",
        "prompts/get",
        "subscriptions/listen",
    ];
    assert(v@.map_values(|s: &str| s@) =~= modern_methods());
    v
}

/// Whether modern requests may call `method`.
pub fn is_modern_method(method: &str) -> (b: bool)
    ensures
        b == modern_methods().contains(method@),
{
    let list = modern_method_list();
    let ghost m = list@.map_values(|s: &str| s@);
    let mut i: usize = 0;
    while i < list.len()
        invariant
            i <= list.len(),
            m == list@.map_values(|s: &str| s@),
            m == modern_methods(),
            forall|k: int| 0 <= k < i ==> m[k] != method@,
        decreases list.len() - i,
    {
        if same_text(method, list[i]) {
            assert(m[i as int] == method@);
            return true;
        }
        i += 1;
    }
    false
}

/// What the HTTP endpoint does with a request before (or instead of)
/// dispatching it.
#[derive(Debug, Clone, Copy, PartialEq, Eq, Structural)]
pub enum HttpGate {
    /// 403: a browser origin other than loopback.
    ForbiddenOrigin,
    /// 401 with a Bearer challenge.
    Unauthorized,
    /// 400: a modern request's headers do not match its body.
    BadHeaders(HeaderRejection),
    /// 404: a modern request for a method not served to modern requests.
    MethodNotFound,
    /// The server-sent-events stream of `subscriptions/listen`.
    Subscription,
    /// Dispatch the body: 200 with the answers, 202 when nothing is answered.
    Dispatch,
}

/// What the endpoint does with a request. A request is modern when it
/// carries a `_meta` version and is not `initialize`; only modern requests
/// with an id are held to the header rules, the modern method list and the
/// subscription stream.
pub open spec fn http_gate_spec(
    origin: Option<Seq<char>>,
    authorized: bool,
    method: Seq<char>,
    meta_version: Option<Seq<char>>,
    has_id: bool,
    h_version: Option<Seq<char>>,
    h_method: Option<Seq<char>>,
    h_name: Option<Seq<char>>,
    name: BodyValue,
    uri: BodyValue,
) -> HttpGate {
    if !origin_allowed_spec(origin) {
        HttpGate::ForbiddenOrigin
    } else if !authorized {
        HttpGate::Unauthorized
    } else if method != "initialize"@ && meta_version is Some && has_id {
        match header_verdict(meta_version->0, method, h_version, h_method, h_name, name, uri) {
            Some(r) => HttpGate::BadHeaders(r),
            None => if !modern_methods().contains(method) {
                HttpGate::MethodNotFound
            } else if method == "subscriptions/listen"@ {
                HttpGate::Subscription
            } else {
                HttpGate::Dispatch
            },
        }
    } else {
        HttpGate::Dispatch
    }
}

/// Decide what the HTTP endpoint does with a request: its `Origin` header,
/// whether its `Authorization` passed, its method, `_meta` version and
/// whether it has an id, and the request headers and body members the
/// modern header rules compare.
pub fn http_gate(
    origin: Option<&str>,
    authorized: bool,
    method: &str,
    meta_version: Option<&str>,
    has_id: bool,
    header_version: Option<&str>,
    header_method: Option<&str>,
    header_name: Option<&str>,
    params_name: &BodyValue,
    params_uri: &BodyValue,
) -> (g: HttpGate)
    ensures
        g == http_gate_spec(
            opt_view(origin),
            authorized,
            method@,
            opt_view(meta_version),
            has_id,
            opt_view(header_version),
            opt_view(header_method),
            opt_view(header_name),
            *params_name,
            *params_uri,
        ),
{
    if !origin_allowed(origin) {
        return HttpGate::ForbiddenOrigin;
    }
    if !authorized {
        return HttpGate::Unauthorized;
    }
    if same_text(method, "initialize") || !has_id {
        return HttpGate::Dispatch;
    }
    match meta_version {
        None => HttpGate::Dispatch,
        Some(v) => match validate_modern_headers(
            v,
            method,
            header_version,
            header_method,
            header_name,
            params_name,
            params_uri,
        ) {
            Err(r) => HttpGate::BadHeaders(r),
            Ok(()) => if !is_modern_method(method) {
                HttpGate::MethodNotFound
            } else if same_text(method, "subscriptions/listen") {
                HttpGate::Subscription
            } else {
                HttpGate::Dispatch
            },
        },
    }
}

} // verus!
