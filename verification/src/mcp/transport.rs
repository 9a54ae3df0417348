//! JSON-RPC transport decisions: bounded line framing for the stdio
//! transport, the pre-initialization gate, and which handler answers a
//! request.
use vstd::prelude::*;

use crate::mcp::server::is_supported_version;
use crate::text::{push_str, same_text};

verus! {

// ── Bounded line reading ──────────────────────────────

/// What to do with the bytes a reader has buffered, while reading one line
/// of at most `max` bytes of which `total` have been read.
#[derive(Debug, Clone, Copy, PartialEq, Eq, Structural)]
pub enum LineStep {
    /// The reader is exhausted: the line (possibly empty) ends here.
    Eof,
    /// Taking the next piece would exceed `max`: fail.
    TooLong,
    /// Take the first `take` buffered bytes; `done` when they end with `\n`.
    Take { take: usize, done: bool },
}

/// Index of the first `\n` in `b`, if any.
pub open spec fn first_newline(b: Seq<u8>) -> Option<int> {
    if exists|i: int| 0 <= i < b.len() && b[i] == 10 && forall|j: int| 0 <= j < i ==> b[j] != 10 {
        Some(choose|i: int| 0 <= i < b.len() && b[i] == 10 && forall|j: int| 0 <= j < i ==> b[j] != 10)
    } else {
        None
    }
}

/// The bytes of the next line in `b`: up to and including the first `\n`,
/// or all of `b`.
pub open spec fn line_take(b: Seq<u8>) -> int {
    match first_newline(b) {
        Some(i) => i + 1,
        None => b.len() as int,
    }
}

/// The step for buffered bytes `available`.
pub open spec fn line_step_spec(available: Seq<u8>, total: int, max: int) -> LineStep {
    if available.len() == 0 {
        LineStep::Eof
    } else if total + line_take(available) > max {
        LineStep::TooLong
    } else {
        LineStep::Take { take: line_take(available) as usize, done: first_newline(available) is Some }
    }
}

/// Decide the next step of reading one bounded line from the buffered bytes.
pub fn line_step(available: &[u8], total: usize, max: usize) -> (s: LineStep)
    ensures
        s == line_step_spec(available@, total as int, max as int),
{
    if available.len() == 0 {
        return LineStep::Eof;
    }
    let mut i: usize = 0;
    while i < available.len() && available[i] != 10u8
        invariant
            i <= available.len(),
            forall|j: int| 0 <= j < i ==> available@[j] != 10,
        decreases available.len() - i,
    {
        i += 1;
    }
    let found = i < available.len();
    proof {
        if found {
            let k = choose|k: int| 0 <= k < available@.len() && available@[k] == 10 && forall|j: int|
                0 <= j < k ==> available@[j] != 10;
            assert(k == i) by {
                if k < i {
                    assert(available@[k] != 10);
                } else if k > i {
                    assert(available@[i as int] != 10);
                }
            }
        }
    }
    let take = if found {
        i + 1
    } else {
        available.len()
    };
    if take > max || total > max - take {
        return LineStep::TooLong;
    }
    LineStep::Take { take, done: found }
}

/// An in-memory byte reader: a buffer and a read position.
#[derive(Debug, Clone)]
pub struct ByteCursor {
    data: Vec<u8>,
    pos: usize,
}

/// Error returned when a line is longer than the allowed maximum.
#[derive(Debug, Clone, Copy, PartialEq, Eq, Structural)]
pub struct LineTooLong {
    /// The maximum that was exceeded.
    pub max: usize,
}

impl ByteCursor {
    /// All bytes of the reader.
    pub closed spec fn data_spec(&self) -> Seq<u8> {
        self.data@
    }

    /// The read position.
    pub closed spec fn pos_spec(&self) -> int {
        self.pos as int
    }

    /// The bytes not read yet.
    pub open spec fn remaining(&self) -> Seq<u8> {
        self.data_spec().skip(self.pos_spec())
    }

    /// The position never passes the end.
    pub closed spec fn wf(&self) -> bool {
        self.pos <= self.data@.len()
    }

    /// A reader over `data`, positioned at its start.
    pub fn new(data: Vec<u8>) -> (c: ByteCursor)
        ensures
            c.wf(),
            c.remaining() == data@,
    {
        let c = ByteCursor { data, pos: 0 };
        assert(c.data@.skip(0) == c.data@);
        c
    }
}

/// Read one line (up to and including `\n`, or to the end) into `buf`,
/// failing without reading when it is longer than `max` bytes. Returns the
/// number of bytes read (0 at end of input).
pub fn read_limited_line(reader: &mut ByteCursor, max: usize, buf: &mut Vec<u8>) -> (r: Result<
    usize,
    LineTooLong,
>)
    requires
        old(reader).wf(),
    ensures
        final(reader).wf(),
        match r {
            Ok(n) => {
                &&& n as int == if old(reader).remaining().len() == 0 {
                    0
                } else {
                    line_take(old(reader).remaining())
                }
                &&& n <= max
                &&& final(buf)@ == old(reader).remaining().take(n as int)
                &&& final(reader).remaining() == old(reader).remaining().skip(n as int)
            },
            Err(e) => {
                &&& e.max == max
                &&& old(reader).remaining().len() > 0
                &&& line_take(old(reader).remaining()) > max
                &&& final(buf)@.len() == 0
                &&& final(reader).remaining() == old(reader).remaining()
            },
        },
{
    buf.clear();
    let ghost rem = reader.remaining();
    let mut avail: Vec<u8> = Vec::new();
    let mut k: usize = reader.pos;
    while k < reader.data.len()
        invariant
            reader.pos <= k <= reader.data@.len(),
            avail@ == reader.data@.subrange(reader.pos as int, k as int),
        decreases reader.data@.len() - k,
    {
        avail.push(reader.data[k]);
        assert(reader.data@.subrange(reader.pos as int, k + 1) == reader.data@.subrange(reader.pos as int, k as int).push(reader.data@[k as int]));
        k += 1;
    }
    assert(avail@ == rem);
    match line_step(avail.as_slice(), 0, max) {
        LineStep::Eof => {
            assert(buf@ == rem.take(0));
            assert(rem.skip(0) == rem);
            Ok(0)
        },
        LineStep::TooLong => Err(LineTooLong { max }),
        LineStep::Take { take, done } => {
            let mut i: usize = 0;
            while i < take
                invariant
                    i <= take <= avail@.len(),
                    buf@ == avail@.take(i as int),
                decreases take - i,
            {
                buf.push(avail[i]);
                assert(avail@.take(i + 1) == avail@.take(i as int).push(avail@[i as int]));
                i += 1;
            }
            proof {
                if first_newline(avail@) is Some {
                    let j = first_newline(avail@)->0;
                    assert(0 <= j < avail@.len());
                }
            }
            reader.pos = reader.pos + take;
            assert(reader.data@.skip(reader.pos as int) == rem.skip(take as int));
            Ok(take)
        },
    }
}

// ── Initialization gate ───────────────────────────────

/// The parts of a parsed JSON-RPC message that transport decisions read.
#[derive(Debug, Clone)]
pub struct RpcRequestView {
    /// The message is a JSON object.
    pub is_object: bool,
    /// The message has an `id` member (any value, `null` included).
    pub has_id: bool,
    /// The `method` member when it is a string, else empty.
    pub method: String,
    /// `params._meta["io.modelcontextprotocol/protocolVersion"]` when it is a
    /// string: the request speaks a modern revision.
    pub meta_version: Option<String>,
}

/// Whether a request must be refused with `-32002` because the connection
/// has not been initialized: only identified legacy requests other than
/// `initialize` are refused.
pub open spec fn refused_before_init(req: RpcRequestView, initialized: bool) -> bool {
    !initialized && req.is_object && req.meta_version is None && req.method@ != "initialize"@
        && req.has_id
}

/// Lifecycle gate for connection-oriented transports: no request other than
/// `initialize` may precede initialization (modern requests and
/// notifications pass).
pub fn check_initialized(req: &RpcRequestView, initialized: bool) -> (refuse: bool)
    ensures
        refuse == refused_before_init(*req, initialized),
{
    if initialized || !req.is_object {
        return false;
    }
    if req.meta_version.is_some() {
        return false;
    }
    if same_text(req.method.as_str(), "initialize") {
        return false;
    }
    req.has_id
}

// ── Routing ───────────────────────────────────────────

/// The handler that answers a request.
#[derive(Debug, Clone, Copy, PartialEq, Eq, Structural)]
pub enum RpcRoute {
    /// A notification: nothing is sent back.
    NoResponse,
    /// Not a JSON object: `-32600` Invalid Request.
    InvalidRequest,
    /// A modern request for an unsupported revision: `-32022` with the list of
    /// supported revisions.
    UnsupportedVersion,
    /// `server/discover` (modern only).
    Discover,
    /// `subscriptions/listen` (modern only): acknowledge, then close.
    SubscriptionListen,
    /// `ping` on a modern request: `-32601`, removed in the newest revision.
    PingRemoved,
    /// `initialize` (always legacy).
    Initialize,
    /// Legacy `ping`: empty result.
    Ping,
    /// `tools/list`.
    ToolsList,
    /// `resources/list`.
    ResourcesList,
    /// `resources/templates/list`: empty list.
    ResourceTemplatesList,
    /// `prompts/list`.
    PromptsList,
    /// `prompts/get`.
    PromptsGet,
    /// `tools/call`.
    ToolsCall,
    /// `resources/read`.
    ResourcesRead,
    /// Anything else: `-32601` Method not found.
    MethodNotFound,
}

/// The handler of the shared method table.
pub open spec fn table_route(m: Seq<char>) -> RpcRoute {
    if m == "initialize"@ {
        RpcRoute::Initialize
    } else if m == "ping"@ {
        RpcRoute::Ping
    } else if m == "tools/list"@ {
        RpcRoute::ToolsList
    } else if m == "resources/list"@ {
        RpcRoute::ResourcesList
    } else if m == "resources/templates/list"@ {
        RpcRoute::ResourceTemplatesList
    } else if m == "prompts/list"@ {
        RpcRoute::PromptsList
    } else if m == "prompts/get"@ {
        RpcRoute::PromptsGet
    } else if m == "tools/call"@ {
        RpcRoute::ToolsCall
    } else if m == "resources/read"@ {
        RpcRoute::ResourcesRead
    } else {
        RpcRoute::MethodNotFound
    }
}

/// The revision a request is served under as a modern request: its `_meta`
/// version, except that `initialize` is always legacy.
pub open spec fn modern_version(req: RpcRequestView) -> Option<Seq<char>> {
    if req.method@ == "initialize"@ {
        None
    } else {
        match req.meta_version {
            Some(v) => Some(v@),
            None => None,
        }
    }
}

/// The handler for a request. On the stdio transport a non-object is an
/// invalid request; on HTTP it is treated like a notification.
pub open spec fn route_spec(req: RpcRequestView, stdio: bool) -> RpcRoute {
    if stdio && !req.is_object {
        RpcRoute::InvalidRequest
    } else if !req.has_id {
        RpcRoute::NoResponse
    } else {
        match modern_version(req) {
            Some(v) => if !crate::mcp::server::supported_versions().contains(v) {
                RpcRoute::UnsupportedVersion
            } else if req.method@ == "server/discover"@ {
                RpcRoute::Discover
            } else if req.method@ == "subscriptions/listen"@ {
                RpcRoute::SubscriptionListen
            } else if req.method@ == "ping"@ {
                RpcRoute::PingRemoved
            } else {
                table_route(req.method@)
            },
            None => table_route(req.method@),
        }
    }
}

fn table_route_of(m: &str) -> (r: RpcRoute)
    ensures
        r == table_route(m@),
{
    if same_text(m, "initialize") {
        RpcRoute::Initialize
    } else if same_text(m, "ping") {
        RpcRoute::Ping
    } else if same_text(m, "tools/list") {
        RpcRoute::ToolsList
    } else if same_text(m, "resources/list") {
        RpcRoute::ResourcesList
    } else if same_text(m, "resources/templates/list") {
        RpcRoute::ResourceTemplatesList
    } else if same_text(m, "prompts/list") {
        RpcRoute::PromptsList
    } else if same_text(m, "prompts/get") {
        RpcRoute::PromptsGet
    } else if same_text(m, "tools/call") {
        RpcRoute::ToolsCall
    } else if same_text(m, "resources/read") {
        RpcRoute::ResourcesRead
    } else {
        RpcRoute::MethodNotFound
    }
}

/// Decide which handler answers `req` (`stdio` selects the stdio transport's
/// treatment of non-objects).
pub fn route_request(req: &RpcRequestView, stdio: bool) -> (r: RpcRoute)
    ensures
        r == route_spec(*req, stdio),
{
    if stdio && !req.is_object {
        return RpcRoute::InvalidRequest;
    }
    if !req.has_id {
        return RpcRoute::NoResponse;
    }
    let method = req.method.as_str();
    if !same_text(method, "initialize") {
        if let Some(v) = &req.meta_version {
            if !is_supported_version(v.as_str()) {
                return RpcRoute::UnsupportedVersion;
            }
            if same_text(method, "server/discover") {
                return RpcRoute::Discover;
            }
            if same_text(method, "subscriptions/listen") {
                return RpcRoute::SubscriptionListen;
            }
            if same_text(method, "ping") {
                return RpcRoute::PingRemoved;
            }
        }
    }
    table_route_of(method)
}

/// Whether a batch must be rejected as a whole: batches are a legacy
/// feature, so any modern request inside one rejects it (`-32600`).
pub fn batch_rejected(items: &[RpcRequestView]) -> (rejected: bool)
    ensures
        rejected == exists|i: int| 0 <= i < items@.len() && (#[trigger] items@[i]).meta_version is Some,
{
    let mut i: usize = 0;
    while i < items.len()
        invariant
            i <= items@.len(),
            forall|j: int| 0 <= j < i ==> (#[trigger] items@[j]).meta_version is None,
        decreases items@.len() - i,
    {
        if items[i].meta_version.is_some() {
            return true;
        }
        i += 1;
    }
    false
}

/// The JSON-RPC error `(code, message)` that a route answers with by itself,
/// for a request whose method is `method`; none for a route that a handler
/// answers.
pub open spec fn route_error_spec(route: RpcRoute, method: Seq<char>) -> Option<(i32, Seq<char>)> {
    match route {
        RpcRoute::InvalidRequest => Some((-32600i32, "Invalid Request: expected a JSON object"@)),
        RpcRoute::UnsupportedVersion => Some((-32022i32, "Unsupported protocol version"@)),
        RpcRoute::PingRemoved => Some(
            (-32601i32, "Method not found: ping (removed in protocol 2026-07-28)"@),
        ),
        RpcRoute::MethodNotFound => Some((-32601i32, "Method not found: "@ + method)),
        _ => None,
    }
}

/// The JSON-RPC error code and message with which `route` answers a request
/// for `method`, or `None` where a handler answers it.
pub fn route_error(route: RpcRoute, method: &str) -> (r: Option<(i32, String)>)
    ensures
        match r {
            Some((code, message)) => route_error_spec(route, method@) == Some((code, message@)),
            None => route_error_spec(route, method@) is None,
        },
{
    match route {
        RpcRoute::InvalidRequest => Some((-32600, "Invalid Request: expected a JSON object".to_string())),
        RpcRoute::UnsupportedVersion => Some((-32022, "Unsupported protocol version".to_string())),
        RpcRoute::PingRemoved => Some(
            (-32601, "Method not found: ping (removed in protocol 2026-07-28)".to_string()),
        ),
        RpcRoute::MethodNotFound => {
            let mut message = "Method not found: ".to_string();
            push_str(&mut message, method);
            Some((-32601, message))
        },
        _ => None,
    }
}

/// The JSON-RPC error `(code, message)` with which a rejected batch is answered.
pub fn batch_error() -> (r: (i32, String))
    ensures
        r.0 == -32600i32,
        r.1@ == "Invalid Request: JSON-RPC batches are not supported by protocol revisions after 2024-11-05"@,
{
    (-32600, "Invalid Request: JSON-RPC batches are not supported by protocol revisions after 2024-11-05".to_string())
}

} // verus!
