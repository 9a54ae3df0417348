//! Protocol revisions, version negotiation, the shaping rules for
//! results of modern (stateless) requests, and tool-argument validation.
use vstd::prelude::*;

use crate::text::{push_str, same_text, views};

verus! {

/// The newest MCP protocol revision this server implements (modern, stateless).
pub const LATEST_PROTOCOL_VERSION: &'static str = "2026-07-28";

/// The newest legacy (initialize-handshake) revision this server implements.
pub const LEGACY_LATEST_PROTOCOL_VERSION: &'static str = "2025-06-18";

/// The `_meta` key carrying a modern request's protocol version.
pub const META_PROTOCOL_VERSION: &'static str = "io.modelcontextprotocol/protocolVersion";

/// The `_meta` key carrying the server identity in results (`server/discover`).
pub const META_SERVER_INFO: &'static str = "io.modelcontextprotocol/serverInfo";

/// The `_meta` key tagging subscription-stream messages.
pub const META_SUBSCRIPTION_ID: &'static str = "io.modelcontextprotocol/subscriptionId";

/// The legacy revisions, newest first.
pub open spec fn legacy_versions() -> Seq<Seq<char>> {
    seq!["2025-06-18"@, "2025-03-26"@, "2024-11-05"@]
}

/// Every supported revision, newest first: the modern one, then the legacy ones.
pub open spec fn supported_versions() -> Seq<Seq<char>> {
    seq!["2026-07-28"@] + legacy_versions()
}

/// MCP protocol versions this server understands, newest first.
pub fn supported_protocol_versions() -> (v: Vec<&'static str>)
    ensures
        v@.map_values(|s: &str| s@) == supported_versions(),
{
    let v = vec!["2026-07-28", "2025-06-18", "2025-03-26", "2024-11-05"];
    assert(v@.map_values(|s: &str| s@) == supported_versions());
    v
}

/// The legacy (initialize-handshake) revisions, newest first.
pub fn legacy_protocol_versions() -> (v: Vec<&'static str>)
    ensures
        v@.map_values(|s: &str| s@) == legacy_versions(),
{
    let v = vec!["2025-06-18", "2025-03-26", "2024-11-05"];
    assert(v@.map_values(|s: &str| s@) == legacy_versions());
    v
}

/// Whether `v` is one of the revisions this server supports.
pub fn is_supported_version(v: &str) -> (b: bool)
    ensures
        b == supported_versions().contains(v@),
{
    let r = same_text(v, "2026-07-28") || same_text(v, "2025-06-18") || same_text(v, "2025-03-26")
        || same_text(v, "2024-11-05");
    proof {
        let s = supported_versions();
        if r {
            if v@ == "2026-07-28"@ { assert(s[0] == v@); }
            else if v@ == "2025-06-18"@ { assert(s[1] == v@); }
            else if v@ == "2025-03-26"@ { assert(s[2] == v@); }
            else { assert(s[3] == v@); }
        } else {
            assert forall|i: int| 0 <= i < s.len() implies s[i] != v@ by {}
        }
    }
    r
}

/// The version `initialize` reports for a requested one: the requested
/// version when it is a legacy revision, else the newest legacy revision.
pub open spec fn negotiated(requested: Option<Seq<char>>) -> Seq<char> {
    match requested {
        Some(v) => if legacy_versions().contains(v) {
            v
        } else {
            "2025-06-18"@
        },
        None => "2025-06-18"@,
    }
}

/// Resolve the protocol version to report in `initialize`. Only legacy
/// revisions are ever negotiated here.
pub fn negotiate_protocol_version(requested: Option<&str>) -> (v: &'static str)
    ensures
        v@ == negotiated(match requested {
            Some(r) => Some(r@),
            None => None,
        }),
        legacy_versions().contains(v@),
        requested is Some && (requested->0@ == "2025-06-18"@ || requested->0@ == "2025-03-26"@
            || requested->0@ == "2024-11-05"@) ==> v@ == requested->0@,
        requested is Some && requested->0@ == "2026-07-28"@ ==> v@ == "2025-06-18"@,
        requested is None ==> v@ == "2025-06-18"@,
{
    let ghost l = legacy_versions();
    assert(l[0] == "2025-06-18"@ && l[1] == "2025-03-26"@ && l[2] == "2024-11-05"@);
    proof {
        lemma_negotiation_echoes_legacy("2026-07-28"@);
    }
    match requested {
        Some(r) => {
            if same_text(r, "2025-06-18") {
                "2025-06-18"
            } else if same_text(r, "2025-03-26") {
                "2025-03-26"
            } else if same_text(r, "2024-11-05") {
                "2024-11-05"
            } else {
                assert forall|i: int| 0 <= i < l.len() implies l[i] != r@ by {}
                "2025-06-18"
            }
        },
        None => "2025-06-18",
    }
}

/// Negotiation echoes every legacy revision back unchanged, answers anything
/// else (the modern revision, an unknown one, or none) with the newest legacy
/// revision, and never hands out the modern revision.
pub proof fn lemma_negotiation_echoes_legacy(v: Seq<char>)
    ensures
        v == "2025-06-18"@ || v == "2025-03-26"@ || v == "2024-11-05"@ ==> negotiated(Some(v))
            == v,
        !(v == "2025-06-18"@ || v == "2025-03-26"@ || v == "2024-11-05"@) ==> negotiated(Some(v))
            == "2025-06-18"@,
        negotiated(Some(v)) != "2026-07-28"@,
        negotiated(None) == "2025-06-18"@,
{
    let l = legacy_versions();
    reveal_strlit("2026-07-28");
    reveal_strlit("2025-06-18");
    reveal_strlit("2025-03-26");
    reveal_strlit("2024-11-05");
    assert(l[0] == "2025-06-18"@ && l[1] == "2025-03-26"@ && l[2] == "2024-11-05"@);
    if !(v == "2025-06-18"@ || v == "2025-03-26"@ || v == "2024-11-05"@) {
        assert forall|i: int| 0 <= i < l.len() implies l[i] != v by {}
    }
    assert("2026-07-28"@ != "2025-06-18"@) by {
        assert("2026-07-28"@[3] != "2025-06-18"@[3]);
    }
    assert("2026-07-28"@ != "2025-03-26"@) by {
        assert("2026-07-28"@[3] != "2025-03-26"@[3]);
    }
    assert("2026-07-28"@ != "2024-11-05"@) by {
        assert("2026-07-28"@[3] != "2024-11-05"@[3]);
    }
}

/// Methods whose modern results are cacheable (`ttlMs`, `cacheScope`).
pub open spec fn cacheable_method(m: Seq<char>) -> bool {
    m == "server/discover"@ || m == "tools/list"@ || m == "resources/list"@ || m
        == "resources/templates/list"@ || m == "prompts/list"@ || m == "resources/read"@
}

/// Methods whose results are cacheable and therefore require `ttlMs` and
/// `cacheScope`.
pub fn is_cacheable_method(method: &str) -> (b: bool)
    ensures
        b == cacheable_method(method@),
{
    same_text(method, "server/discover") || same_text(method, "tools/list") || same_text(
        method,
        "resources/list",
    ) || same_text(method, "resources/templates/list") || same_text(method, "prompts/list") || same_text(
        method,
        "resources/read",
    )
}

/// Fields a modern result must carry in addition to its payload.
#[derive(Debug, Clone, Copy, PartialEq, Eq, Structural)]
pub struct ResultShape {
    /// Add `resultType: "complete"` (when absent).
    pub result_type: bool,
    /// Add `ttlMs: 3600000` and `cacheScope: "private"` (when absent).
    pub cache_fields: bool,
}

/// How a result of `method` answered under `protocol_version` is stamped:
/// only the newest revision stamps, and only cacheable methods get the
/// cache fields.
pub fn modern_result_shape(protocol_version: &str, method: &str) -> (s: ResultShape)
    ensures
        s.result_type == (protocol_version@ == "2026-07-28"@),
        s.cache_fields == (protocol_version@ == "2026-07-28"@ && cacheable_method(method@)),
{
    if !same_text(protocol_version, LATEST_PROTOCOL_VERSION) {
        return ResultShape { result_type: false, cache_fields: false };
    }
    ResultShape { result_type: true, cache_fields: is_cacheable_method(method) }
}


// ── Tool arguments ────────────────────────────────────

/// The `arguments` of a tool call, as far as validation reads them.
#[derive(Debug, Clone)]
pub enum ArgumentsShape {
    /// JSON `null`: no arguments given.
    Null,
    /// A JSON object, by its member names.
    Object(Vec<String>),
    /// Any other JSON value.
    Other,
}

/// The member names of an object argument; `None` for `null`.
pub open spec fn arg_keys(a: ArgumentsShape) -> Option<Seq<Seq<char>>> {
    match a {
        ArgumentsShape::Object(keys) => Some(views(keys@)),
        _ => None,
    }
}

/// The first required name missing from the arguments (all are missing
/// when no object was given).
pub open spec fn first_missing(required: Seq<Seq<char>>, keys: Option<Seq<Seq<char>>>) -> Option<
    Seq<char>,
>
    decreases required.len(),
{
    if required.len() == 0 {
        None
    } else if keys is None || !keys->0.contains(required[0]) {
        Some(required[0])
    } else {
        first_missing(required.drop_first(), keys)
    }
}

/// The message that rejects the arguments of tool `name`, if any: only an
/// object schema constrains them; a non-object, non-null value is rejected;
/// then the first missing required argument is named.
pub open spec fn tool_args_error(
    name: Seq<char>,
    schema_is_object: bool,
    required: Option<Seq<Seq<char>>>,
    args: ArgumentsShape,
) -> Option<Seq<char>> {
    if !schema_is_object {
        None
    } else if args is Other {
        Some("tool '"@ + name + "' expects an object for arguments"@)
    } else {
        match required {
            None => None,
            Some(req) => match first_missing(req, arg_keys(args)) {
                Some(f) => Some("tool '"@ + name + "' is missing required argument '"@ + f + "'"@),
                None => None,
            },
        }
    }
}

fn has_key(keys: &Vec<String>, field: &String) -> (b: bool)
    ensures
        b == views(keys@).contains(field@),
{
    let mut i: usize = 0;
    while i < keys.len()
        invariant
            i <= keys@.len(),
            forall|k: int| 0 <= k < i ==> keys@[k]@ != field@,
        decreases keys@.len() - i,
    {
        if keys[i] == *field {
            assert(views(keys@)[i as int] == field@);
            return true;
        }
        i += 1;
    }
    proof {
        assert forall|k: int| 0 <= k < views(keys@).len() implies views(keys@)[k] != field@ by {
            assert(views(keys@)[k] == keys@[k]@);
        }
    }
    false
}

/// Validate a tool call's arguments against the tool's declared input
/// schema: whether it is an object schema, and its `required` names (the
/// string entries, in order) when it lists any.
pub fn check_tool_args(
    name: &str,
    schema_is_object: bool,
    required: Option<&[String]>,
    args: &ArgumentsShape,
) -> (r: Result<(), String>)
    ensures
        match r {
            Ok(()) => tool_args_error(
                name@,
                schema_is_object,
                match required {
                    Some(q) => Some(views(q@)),
                    None => None,
                },
                *args,
            ) is None,
            Err(m) => tool_args_error(
                name@,
                schema_is_object,
                match required {
                    Some(q) => Some(views(q@)),
                    None => None,
                },
                *args,
            ) == Some(m@),
        },
{
    if !schema_is_object {
        return Ok(());
    }
    if let ArgumentsShape::Other = args {
        let mut m = String::new();
        push_str(&mut m, "tool '");
        push_str(&mut m, name);
        push_str(&mut m, "' expects an object for arguments");
        assert(m@ == "tool '"@ + name@ + "' expects an object for arguments"@);
        return Err(m);
    }
    let req = match required {
        None => return Ok(()),
        Some(q) => q,
    };
    let ghost keys = arg_keys(*args);
    let ghost all = views(req@);
    let mut i: usize = 0;
    assert(all.skip(0) == all);
    while i < req.len()
        invariant
            i <= req@.len(),
            all == views(req@),
            keys == arg_keys(*args),
            !(*args is Other),
            schema_is_object,
            required == Some(req),
            first_missing(all, keys) == first_missing(all.skip(i as int), keys),
        decreases req@.len() - i,
    {
        let present = match args {
            ArgumentsShape::Object(ks) => has_key(ks, &req[i]),
            _ => false,
        };
        let ghost rest = all.skip(i as int);
        assert(rest[0] == req@[i as int]@);
        assert(rest.drop_first() == all.skip(i + 1));
        if !present {
            let mut m = String::new();
            push_str(&mut m, "tool '");
            push_str(&mut m, name);
            push_str(&mut m, "' is missing required argument '");
            push_str(&mut m, req[i].as_str());
            push_str(&mut m, "'");
            assert(m@ == "tool '"@ + name@ + "' is missing required argument '"@ + req@[i as int]@
                + "'"@);
            return Err(m);
        }
        i += 1;
    }
    assert(all.skip(req@.len() as int).len() == 0);
    Ok(())
}

} // verus!
