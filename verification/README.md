# llm_kernel

Building blocks for LLM applications — a knowledge graph store, model-provider
clients and an MCP server — whose logic is specified and proved with Verus.

## Layout

- `src/` — the verified library. Every function carries a `requires`/`ensures`
  contract over mathematical models (`Seq`, `Set`, `int`, views):
  - `graph/` — value encodings (CSV lists, `LIKE` escaping, importance by node
    type), ISO-8601 time arithmetic, the SQL statements of the SQLite and
    PostgreSQL stores (search, filtered listing, recall candidates, CJK
    substring search, traversal, schema migrations), and the in-memory graph:
    a CSR snapshot with connected components, shared neighbours and link
    candidates.
  - `llm/` — chat messages and conversation history with role rules, token
    budgets, prompt templates, JSON extraction, retry backoff, routing order
    and fall-through, SSE framing, stream-chunk events and response folding.
  - `mcp/` — bearer authentication, protocol-version negotiation, request
    routing and the lifecycle gate, tool-argument checks, and the HTTP
    endpoint's admission rules (origin, modern request headers).
  - `install/` — MCP configuration files for agent applications.
  - `text.rs` — the character-level model (words, trimming, joining,
    replacing) the other contracts are written in.
- `app/` — the runtime around the library: SQLite storage, floating-point
  graph algorithms (PageRank, Dijkstra, label propagation), JSON wire types,
  the stdio and HTTP transports, and the asynchronous provider clients.
- `tests/` — tests of the library through its public API.
