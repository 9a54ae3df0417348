//! Text handling for LLM provider responses: server-sent-event framing,
//! reasoning-content promotion, and repair of JSON bodies that carry raw
//! control characters inside string literals.
use vstd::prelude::*;
use vstd::string::StrSliceExecFns;
use vstd::string::StringSliceAdditionalSpecFns;

use crate::error::KernelError;
use crate::graph::lifecycle::{all_digits, digits_value};
use crate::llm::tool::ToolCall;
use crate::llm::types::{LLMResponse, StreamEvent, TokenUsage};
use crate::text::{chars_of, push_char, push_str, same_text, trim_end, views};

verus! {

/// The text of an HTTP error body as it is passed on: unchanged (secret
/// masking is not part of this build).
pub fn redact_http_body(body: &str) -> (out: String)
    ensures
        out@ == body@,
{
    body.to_owned()
}

/// Whether an HTTP status is a success (`2xx`).
pub fn is_success_status(status: u16) -> (b: bool)
    ensures
        b == (200 <= status <= 299),
{
    200 <= status && status <= 299
}

/// The error for an answer with a non-success status `status` and body
/// `body`: the status, with the body as passed on by [`redact_http_body`].
pub fn http_status_error(status: u16, body: &str) -> (e: KernelError)
    ensures
        e matches KernelError::Http { status: s, message: m } && s == status && m@ == body@,
{
    KernelError::Http { status, message: redact_http_body(body) }
}

/// The payload of an SSE `data: ` line; `None` for other lines and for the
/// `[DONE]` sentinel.
pub open spec fn sse_data(line: Seq<char>) -> Option<Seq<char>> {
    let prefix = "data: "@;
    if line.len() >= prefix.len() && line.take(prefix.len() as int) == prefix {
        let d = line.skip(prefix.len() as int);
        if d == "[DONE]"@ {
            None
        } else {
            Some(d)
        }
    } else {
        None
    }
}

/// Extract the data payload from an SSE `data: ...` line.
/// Returns `None` for non-data lines and for `data: [DONE]`.
pub fn parse_sse_line(line: &str) -> (r: Option<&str>)
    ensures
        match r {
            Some(d) => sse_data(line@) == Some(d@),
            None => sse_data(line@) is None,
        },
{
    proof {
        reveal_strlit("data: ");
        reveal_strlit("[DONE]");
    }
    let v = chars_of(line);
    let n = line.unicode_len();
    if n < 6 {
        return None;
    }
    if !(v[0] == 'd' && v[1] == 'a' && v[2] == 't' && v[3] == 'a' && v[4] == ':' && v[5] == ' ') {
        assert(line@.take(6) != "data: "@) by {
            assert(line@.take(6)[0] == v@[0] && line@.take(6)[1] == v@[1] && line@.take(6)[2]
                == v@[2] && line@.take(6)[3] == v@[3] && line@.take(6)[4] == v@[4]
                && line@.take(6)[5] == v@[5]);
        }
        return None;
    }
    assert(line@.take(6) == "data: "@);
    let d = line.substring_char(6, n);
    assert(d@ == line@.skip(6));
    let is_done = n == 12 && v[6] == '[' && v[7] == 'D' && v[8] == 'O' && v[9] == 'N' && v[10]
        == 'E' && v[11] == ']';
    if is_done {
        assert(d@ == "[DONE]"@);
        return None;
    }
    assert(d@ != "[DONE]"@) by {
        if d@ == "[DONE]"@ {
            assert(d@.len() == 6);
            assert(d@[0] == v@[6] && d@[1] == v@[7] && d@[2] == v@[8] && d@[3] == v@[9] && d@[4]
                == v@[10] && d@[5] == v@[11]);
        }
    }
    Some(d)
}

/// Text decoded from bytes by `String::from_utf8_lossy`.
pub uninterp spec fn utf8_lossy(b: Seq<u8>) -> Seq<char>;

/// Decode bytes as UTF-8, replacing invalid sequences with U+FFFD
/// (`String::from_utf8_lossy`). Claimed: the result is the named decoding of
/// the bytes, which for valid UTF-8 is the exact decoding.
#[verifier::external_body]
fn decode_lossy(b: &[u8]) -> (s: String)
    ensures
        s@ == utf8_lossy(b@),
        vstd::utf8::valid_utf8(b@) ==> s@ == vstd::utf8::decode_utf8(b@),
{
    String::from_utf8_lossy(b).into_owned()
}

/// Index of the first `\n` byte in `b` at or after `from`.
pub open spec fn newline_from(b: Seq<u8>, from: int) -> Option<int>
    decreases b.len() - from,
{
    if from < 0 || from >= b.len() {
        None
    } else if b[from] == 10 {
        Some(from)
    } else {
        newline_from(b, from + 1)
    }
}

/// The complete (newline-terminated) lines of `b` from `from` on, each with
/// its `\n`, and the unterminated rest.
pub open spec fn complete_lines(b: Seq<u8>, from: int) -> (Seq<Seq<u8>>, Seq<u8>)
    decreases b.len() - from,
{
    match newline_from(b, from) {
        Some(p) => if p >= from && p < b.len() {
            let (ls, rest) = complete_lines(b, p + 1);
            (seq![b.subrange(from, p + 1)] + ls, rest)
        } else {
            (Seq::empty(), b.skip(from))
        },
        None => (Seq::empty(), if 0 <= from <= b.len() {
            b.skip(from)
        } else {
            Seq::empty()
        }),
    }
}

/// A drained line as it is handed on: decoded, trailing whitespace removed.
pub open spec fn line_text(l: Seq<u8>) -> Seq<char> {
    trim_end(utf8_lossy(l))
}

proof fn lemma_newline_from_bounds(b: Seq<u8>, from: int)
    ensures
        newline_from(b, from) matches Some(p) ==> from <= p < b.len() && b[p] == 10,
        from >= 0 && newline_from(b, from) is None ==> forall|k: int| from <= k < b.len() ==> b[k]
            != 10,
    decreases b.len() - from,
{
    if from < 0 || from >= b.len() {
    } else if b[from] == 10 {
    } else {
        lemma_newline_from_bounds(b, from + 1);
    }
}

fn trim_end_owned(s: String) -> (r: String)
    ensures
        r@ == trim_end(s@),
{
    let v = chars_of(s.as_str());
    let mut hi: usize = v.len();
    assert(v@.take(v.len() as int) == v@);
    while hi > 0 && crate::text::is_whitespace(v[hi - 1])
        invariant
            hi <= v.len(),
            trim_end(v@) == trim_end(v@.take(hi as int)),
        decreases hi,
    {
        assert(v@.take(hi as int).drop_last() == v@.take(hi - 1));
        hi -= 1;
    }
    assert(v@.take(v.len() as int) == v@);
    proof {
        let t = v@.take(hi as int);
        assert(!(t.len() > 0 && crate::text::is_ws(t.last())));
    }
    crate::text::string_from_range(v.as_slice(), 0, hi)
}

/// Append a raw network chunk to `buffer` and drain every complete,
/// newline-terminated line, decoded as UTF-8 with trailing whitespace
/// removed. Decoding waits until a line's bytes are all buffered, so a
/// character split across chunks is never corrupted.
pub fn drain_sse_lines(buffer: &mut Vec<u8>, chunk: &[u8]) -> (lines: Vec<String>)
    ensures
        views(lines@) == complete_lines(old(buffer)@ + chunk@, 0).0.map_values(
            |l: Seq<u8>| line_text(l),
        ),
        final(buffer)@ == complete_lines(old(buffer)@ + chunk@, 0).1,
{
    let ghost all = old(buffer)@ + chunk@;
    let mut data: Vec<u8> = Vec::new();
    std::mem::swap(&mut data, buffer);
    let mut k: usize = 0;
    while k < chunk.len()
        invariant
            k <= chunk.len(),
            data@ == old(buffer)@ + chunk@.take(k as int),
        decreases chunk.len() - k,
    {
        data.push(chunk[k]);
        assert(chunk@.take(k + 1) == chunk@.take(k as int).push(chunk@[k as int]));
        k += 1;
    }
    assert(chunk@.take(chunk.len() as int) == chunk@);
    assert(data@ == all);
    let mut lines: Vec<String> = Vec::new();
    let mut start: usize = 0;
    let ghost mut done: Seq<Seq<u8>> = Seq::empty();
    loop
        invariant
            start <= data@.len(),
            data@ == all,
            done + complete_lines(all, start as int).0 == complete_lines(all, 0).0,
            complete_lines(all, start as int).1 == complete_lines(all, 0).1,
            views(lines@) == done.map_values(|l: Seq<u8>| line_text(l)),
        ensures
            start <= data@.len(),
            data@ == all,
            complete_lines(all, start as int).0 == Seq::<Seq<u8>>::empty(),
            complete_lines(all, start as int).1 == complete_lines(all, 0).1,
            views(lines@) == complete_lines(all, 0).0.map_values(|l: Seq<u8>| line_text(l)),
        decreases data@.len() - start,
    {
        let mut p: usize = start;
        while p < data.len() && data[p] != 10u8
            invariant
                start <= p <= data@.len(),
                newline_from(all, start as int) == newline_from(all, p as int),
                data@ == all,
            decreases data@.len() - p,
        {
            p += 1;
        }
        if p == data.len() {
            assert(done + Seq::<Seq<u8>>::empty() == done);
            break ;
        }
        let mut line_bytes: Vec<u8> = Vec::new();
        let mut q: usize = start;
        let end = p + 1;
        while q < end
            invariant
                start <= q <= end,
                end == p + 1,
                p < data@.len(),
                line_bytes@ == data@.subrange(start as int, q as int),
            decreases p + 1 - q,
        {
            line_bytes.push(data[q]);
            assert(data@.subrange(start as int, q + 1) == data@.subrange(start as int, q as int).push(data@[q as int]));
            q += 1;
        }
        let text = trim_end_owned(decode_lossy(line_bytes.as_slice()));
        let ghost d0 = done;
        let ghost l0 = lines@;
        proof {
            done = done.push(line_bytes@);
            assert(complete_lines(all, start as int).0 == seq![line_bytes@] + complete_lines(
                all,
                p + 1,
            ).0);
            assert(d0 + (seq![line_bytes@] + complete_lines(all, p + 1).0) == done
                + complete_lines(all, p + 1).0);
        }
        lines.push(text);
        assert(views(lines@) == views(l0).push(text@));
        assert(done.map_values(|l: Seq<u8>| line_text(l)) == d0.map_values(|l: Seq<u8>| line_text(l)).push(line_text(line_bytes@)));
        start = p + 1;
    }
    let mut rest: Vec<u8> = Vec::new();
    let mut r: usize = start;
    while r < data.len()
        invariant
            start <= r <= data@.len(),
            rest@ == data@.subrange(start as int, r as int),
        decreases data@.len() - r,
    {
        rest.push(data[r]);
        assert(data@.subrange(start as int, r + 1) == data@.subrange(start as int, r as int).push(data@[r as int]));
        r += 1;
    }
    proof {
        assert(newline_from(all, start as int) is None) by {
            if newline_from(all, start as int) is Some {
                lemma_newline_from_bounds(all, start as int);
                let p = newline_from(all, start as int)->0;
                assert(p >= start);
            }
        }
        assert(rest@ == all.skip(start as int));
    }
    *buffer = rest;
    lines
}

/// The content shown for a reasoning-model response: the reasoning when the
/// content is empty, else the content.
pub fn promote_reasoning_into_content(raw_content: String, reasoning: Option<&str>) -> (out: String)
    ensures
        out@ == if raw_content@.len() == 0 {
            match reasoning {
                Some(r) => r@,
                None => Seq::empty(),
            }
        } else {
            raw_content@
        },
{
    if raw_content.as_str().is_empty() {
        match reasoning {
            Some(r) => r.to_owned(),
            None => String::new(),
        }
    } else {
        raw_content
    }
}

/// The content of a reasoning-model response: the reasoning when the content
/// is empty, else the content.
pub open spec fn promoted_content(raw_content: Seq<char>, reasoning: Option<Seq<char>>) -> Seq<char> {
    if raw_content.len() == 0 {
        match reasoning {
            Some(r) => r,
            None => Seq::empty(),
        }
    } else {
        raw_content
    }
}

/// What the client reads of the first choice of an OpenAI chat response.
pub struct OpenAIChoice {
    /// `message.content` (absent or `null` as `None`).
    pub content: Option<String>,
    /// `message.reasoning_content` (or `message.reasoning`).
    pub reasoning_content: Option<String>,
    /// `message.tool_calls`, in order.
    pub tool_calls: Vec<ToolCall>,
    /// `finish_reason`.
    pub finish_reason: Option<String>,
}

/// The response to an OpenAI chat completion whose first choice is `first`:
/// its content (the reasoning promoted into an empty content), its reasoning
/// kept as sent, its tool calls and finish reason; with no choice, empty
/// content and nothing else.
pub fn openai_response(
    first: Option<OpenAIChoice>,
    model: String,
    usage: TokenUsage,
    id: Option<String>,
    created: Option<u64>,
) -> (r: LLMResponse)
    ensures
        r.model == model,
        r.usage == usage,
        r.id == id,
        r.created == created,
        match first {
            Some(c) => {
                &&& r.content@ == promoted_content(
                    match c.content {
                        Some(t) => t@,
                        None => Seq::empty(),
                    },
                    match c.reasoning_content {
                        Some(t) => Some(t@),
                        None => None,
                    },
                )
                &&& r.reasoning == c.reasoning_content
                &&& r.tool_calls == c.tool_calls
                &&& r.finish_reason == c.finish_reason
            },
            None => {
                &&& r.content@ == Seq::<char>::empty()
                &&& r.reasoning is None
                &&& r.tool_calls@.len() == 0
                &&& r.finish_reason is None
            },
        },
{
    match first {
        Some(c) => {
            let OpenAIChoice { content, reasoning_content, tool_calls, finish_reason } = c;
            let raw = match content {
                Some(t) => t,
                None => String::new(),
            };
            let shown = match &reasoning_content {
                Some(t) => promote_reasoning_into_content(raw, Some(t.as_str())),
                None => promote_reasoning_into_content(raw, None),
            };
            LLMResponse {
                content: shown,
                reasoning: reasoning_content,
                model,
                usage,
                tool_calls,
                finish_reason,
                id,
                created,
            }
        },
        None => LLMResponse {
            content: String::new(),
            reasoning: None,
            model,
            usage,
            tool_calls: Vec::new(),
            finish_reason: None,
            id,
            created,
        },
    }
}

/// Lowercase hex digit of `d < 16`.
pub open spec fn hex_digit(d: int) -> char {
    if d < 10 {
        (d + 48) as char
    } else {
        (d + 87) as char
    }
}

/// `\u00XX` for a control character.
pub open spec fn unicode_escape(c: char) -> Seq<char> {
    seq!['\\', 'u', '0', '0', hex_digit(((c as u32) / 16) as int), hex_digit(((c as u32) % 16) as int)]
}

/// Rewrite of `s` from a state inside a string literal or not, just after a
/// backslash inside a string or not: raw control characters inside string
/// literals become `\u00XX`, everything else is kept.
pub open spec fn escape_controls_from(s: Seq<char>, in_string: bool, escaped: bool) -> Seq<char>
    decreases s.len(),
{
    if s.len() == 0 {
        Seq::empty()
    } else {
        let c = s[0];
        let rest = s.drop_first();
        if escaped {
            seq![c] + escape_controls_from(rest, in_string, false)
        } else if c == '"' {
            seq![c] + escape_controls_from(rest, !in_string, false)
        } else if c == '\\' && in_string {
            seq![c] + escape_controls_from(rest, in_string, true)
        } else if in_string && (c as u32) < 0x20 {
            unicode_escape(c) + escape_controls_from(rest, in_string, false)
        } else {
            seq![c] + escape_controls_from(rest, in_string, false)
        }
    }
}

fn hex_char(d: u32) -> (c: char)
    requires
        d < 16,
    ensures
        c == hex_digit(d as int),
{
    if d < 10 {
        char_of_ascii((d + 48) as u8)
    } else {
        char_of_ascii((d + 87) as u8)
    }
}

fn char_of_ascii(b: u8) -> (c: char)
    requires
        b < 128,
    ensures
        c == (b as char),
{
    b as char
}

/// Escape raw C0 control characters (`0x00`–`0x1F`) inside JSON string
/// literals as `\u00XX`, leaving everything outside string literals and
/// every existing escape untouched.
pub fn escape_unescaped_control_chars(raw: &str) -> (out: String)
    ensures
        out@ == escape_controls_from(raw@, false, false),
{
    let v = chars_of(raw);
    let mut out = String::new();
    let mut in_string = false;
    let mut escaped = false;
    let mut i: usize = 0;
    assert(v@.skip(0) == v@);
    while i < v.len()
        invariant
            i <= v.len(),
            out@ + escape_controls_from(v@.skip(i as int), in_string, escaped)
                == escape_controls_from(v@, false, false),
        decreases v.len() - i,
    {
        let ch = v[i];
        let ghost o0 = out@;
        let ghost rest = v@.skip(i as int);
        let ghost ghost_in = in_string;
        let ghost ghost_esc = escaped;
        assert(rest[0] == ch);
        assert(rest.drop_first() == v@.skip(i + 1));
        if escaped {
            escaped = false;
            push_char(&mut out, ch);
        } else if ch == '"' {
            in_string = !in_string;
            push_char(&mut out, ch);
        } else if ch == '\\' && in_string {
            escaped = true;
            push_char(&mut out, ch);
        } else if in_string && (ch as u32) < 0x20 {
            let code = ch as u32;
            push_char(&mut out, '\\');
            push_char(&mut out, 'u');
            push_char(&mut out, '0');
            push_char(&mut out, '0');
            push_char(&mut out, hex_char(code / 16));
            push_char(&mut out, hex_char(code % 16));
            assert(out@ == o0 + unicode_escape(ch));
        } else {
            push_char(&mut out, ch);
        }
        assert(o0 + escape_controls_from(rest, ghost_in, ghost_esc) == out@
            + escape_controls_from(v@.skip(i + 1), in_string, escaped));
        i += 1;
    }
    assert(v@.skip(v.len() as int) == Seq::<char>::empty());
    out
}


// ── Rate limiting ─────────────────────────────────────

/// `str::parse::<u64>` on the bytes of a text: an optional `+`, then one or
/// more ASCII digits whose value fits in a `u64`.
pub open spec fn parse_u64_spec(b: Seq<u8>) -> Option<int> {
    parse_u64_spec_digits(
        if b.len() > 0 && b[0] == 43 {
            b.drop_first()
        } else {
            b
        },
    )
}

proof fn lemma_digits_value_grows(b: Seq<u8>, j: int)
    requires
        all_digits(b),
        0 <= j <= b.len(),
    ensures
        digits_value(b.take(j)) <= digits_value(b),
    decreases b.len() - j,
{
    if j < b.len() {
        lemma_digits_value_grows(b, j + 1);
        let t = b.take(j + 1);
        assert(t.drop_last() == b.take(j));
        assert(48 <= b[j] <= 57);
        assert(digits_value(b.take(j)) >= 0) by {
            lemma_digits_nonneg(b.take(j));
        }
    } else {
        assert(b.take(j) == b);
    }
}

proof fn lemma_digits_nonneg(b: Seq<u8>)
    ensures
        all_digits(b) ==> digits_value(b) >= 0,
    decreases b.len(),
{
    if b.len() > 0 {
        lemma_digits_nonneg(b.drop_last());
        if all_digits(b) {
            assert(all_digits(b.drop_last())) by {
                assert forall|i: int| 0 <= i < b.drop_last().len() implies 48 <= #[trigger] b.drop_last()[i]
                    <= 57 by {
                    assert(b.drop_last()[i] == b[i]);
                }
            }
            assert(48 <= b[b.len() - 1] <= 57);
        }
    }
}

/// Parse a decimal `u64` as `str::parse::<u64>` does.
pub fn parse_u64(s: &str) -> (r: Option<u64>)
    ensures
        match r {
            Some(v) => parse_u64_spec(s.spec_bytes()) == Some(v as int),
            None => parse_u64_spec(s.spec_bytes()) is None,
        },
{
    let b = s.as_bytes();
    let start: usize = if b.len() > 0 && b[0] == 43u8 {
        1
    } else {
        0
    };
    let ghost digits = if b@.len() > 0 && b@[0] == 43 {
        b@.drop_first()
    } else {
        b@
    };
    assert(digits == b@.skip(start as int));
    assert(parse_u64_spec(b@) == parse_u64_spec_digits(digits));
    if start >= b.len() {
        return None;
    }
    let mut v: u64 = 0;
    let mut i: usize = start;
    assert(digits.take(0) == Seq::<u8>::empty());
    while i < b.len()
        invariant
            start <= i <= b.len(),
            b@ == s.spec_bytes(),
            digits == b@.skip(start as int),
            parse_u64_spec(b@) == parse_u64_spec_digits(digits),
            all_digits(digits.take(i - start)),
            v as int == digits_value(digits.take(i - start)),
        decreases b.len() - i,
    {
        let c = b[i];
        let ghost k = i - start;
        assert(digits[k] == c);
        if c < 48u8 || c > 57u8 {
            proof {
                lemma_non_digit(digits, k);
            }
            return None;
        }
        proof {
            lemma_digit_step(digits, k);
        }
        let d = (c - 48u8) as u64;
        match v.checked_mul(10) {
            Some(m) => match m.checked_add(d) {
                Some(nv) => {
                    v = nv;
                },
                None => {
                    proof {
                        lemma_overflow_is_final(digits, k + 1);
                    }
                    return None;
                },
            },
            None => {
                proof {
                    lemma_digits_nonneg(digits.take(k));
                    lemma_overflow_is_final(digits, k + 1);
                }
                return None;
            },
        }
        i += 1;
    }
    assert(digits.take(digits.len() as int) == digits);
    Some(v)
}

proof fn lemma_non_digit(digits: Seq<u8>, k: int)
    requires
        0 <= k < digits.len(),
        !(48 <= digits[k] <= 57),
    ensures
        parse_u64_spec_digits(digits) is None,
{
    assert(!all_digits(digits));
}

proof fn lemma_digit_step(digits: Seq<u8>, k: int)
    requires
        0 <= k < digits.len(),
        all_digits(digits.take(k)),
        48 <= digits[k] <= 57,
    ensures
        all_digits(digits.take(k + 1)),
        digits_value(digits.take(k + 1)) == digits_value(digits.take(k)) * 10 + (digits[k] - 48),
{
    let t = digits.take(k + 1);
    assert(t.drop_last() == digits.take(k));
    assert(t.last() == digits[k]);
    assert forall|j: int| 0 <= j < t.len() implies 48 <= #[trigger] t[j] <= 57 by {
        if j < k {
            assert(t[j] == digits.take(k)[j]);
        }
    }
}

proof fn lemma_overflow_is_final(digits: Seq<u8>, j: int)
    requires
        0 < j <= digits.len(),
        all_digits(digits.take(j)),
        digits_value(digits.take(j)) > u64::MAX,
    ensures
        parse_u64_spec_digits(digits) is None,
{
    if all_digits(digits) {
        lemma_digits_value_grows(digits, j);
    }
}

/// The digits part of [`parse_u64_spec`].
pub open spec fn parse_u64_spec_digits(digits: Seq<u8>) -> Option<int> {
    if digits.len() > 0 && all_digits(digits) && digits_value(digits) <= u64::MAX {
        Some(digits_value(digits))
    } else {
        None
    }
}

/// The error a response status carries for rate limiting: `429` is
/// `RateLimited` with the `retry-after` seconds (60 when the header is
/// absent or not a number); any other status passes.
pub fn check_rate_limit(status: u16, retry_after: Option<&str>) -> (r: Result<(), KernelError>)
    ensures
        status != 429 ==> r is Ok,
        status == 429 ==> r == Err::<(), KernelError>(KernelError::RateLimited(
            match retry_after {
                Some(h) => match parse_u64_spec(h.spec_bytes()) {
                    Some(v) => v as u64,
                    None => 60u64,
                },
                None => 60u64,
            },
        )),
{
    if status != 429 {
        return Ok(());
    }
    let secs: u64 = match retry_after {
        Some(h) => match parse_u64(h) {
            Some(v) => v,
            None => 60,
        },
        None => 60,
    };
    Err(KernelError::RateLimited(secs))
}

// ── Anthropic responses ───────────────────────────────

/// One content block of an Anthropic messages response: its `type` and the
/// fields the client reads, `input` as its JSON text.
pub struct AnthropicBlock {
    /// The block type (`text`, `thinking`, `tool_use`, ...).
    pub block_type: String,
    /// The text of a `text` block.
    pub text: Option<String>,
    /// The text of a `thinking` block.
    pub thinking: Option<String>,
    /// The call id of a `tool_use` block.
    pub id: Option<String>,
    /// The tool name of a `tool_use` block.
    pub name: Option<String>,
    /// The JSON text of a `tool_use` block's input.
    pub input: Option<String>,
}

/// The text a block adds to the answer: a `text` block's text.
pub open spec fn block_text(b: AnthropicBlock) -> Seq<char> {
    if b.block_type@ == "text"@ {
        match b.text {
            Some(t) => t@,
            None => Seq::empty(),
        }
    } else {
        Seq::empty()
    }
}

/// The text a block adds to the reasoning: a `thinking` block's text.
pub open spec fn block_thinking(b: AnthropicBlock) -> Seq<char> {
    if b.block_type@ == "thinking"@ {
        match b.thinking {
            Some(t) => t@,
            None => Seq::empty(),
        }
    } else {
        Seq::empty()
    }
}

/// The call a block requests: a `tool_use` block with both an id and a name,
/// as `(id, name, arguments)`; the arguments are the input's JSON, `{}`
/// without one.
pub open spec fn block_call(b: AnthropicBlock) -> Option<(Seq<char>, Seq<char>, Seq<char>)> {
    if b.block_type@ == "tool_use"@ {
        match (b.id, b.name) {
            (Some(i), Some(n)) => Some(
                (
                    i@,
                    n@,
                    match b.input {
                        Some(x) => x@,
                        None => "{}"@,
                    },
                ),
            ),
            _ => None,
        }
    } else {
        None
    }
}

/// The answer text of a response: its text blocks, in order.
pub open spec fn answer_text(bs: Seq<AnthropicBlock>) -> Seq<char>
    decreases bs.len(),
{
    if bs.len() == 0 {
        Seq::empty()
    } else {
        answer_text(bs.drop_last()) + block_text(bs.last())
    }
}

/// The reasoning text of a response: its thinking blocks, in order.
pub open spec fn reasoning_text(bs: Seq<AnthropicBlock>) -> Seq<char>
    decreases bs.len(),
{
    if bs.len() == 0 {
        Seq::empty()
    } else {
        reasoning_text(bs.drop_last()) + block_thinking(bs.last())
    }
}

/// The tool calls of a response, in block order.
pub open spec fn requested_calls(bs: Seq<AnthropicBlock>) -> Seq<(Seq<char>, Seq<char>, Seq<char>)>
    decreases bs.len(),
{
    if bs.len() == 0 {
        Seq::empty()
    } else {
        match block_call(bs.last()) {
            Some(c) => requested_calls(bs.drop_last()).push(c),
            None => requested_calls(bs.drop_last()),
        }
    }
}

/// A tool call as `(id, name, arguments)`.
pub open spec fn call_parts(c: ToolCall) -> (Seq<char>, Seq<char>, Seq<char>) {
    (c.id@, c.name@, c.arguments@)
}

/// What the content blocks of a response amount to.
pub struct AnthropicContent {
    /// The answer text.
    pub content: String,
    /// The reasoning text, when there is any.
    pub reasoning: Option<String>,
    /// The requested tool calls.
    pub tool_calls: Vec<ToolCall>,
}

/// Fold the content blocks of a response into its answer text, its
/// reasoning (`None` when empty) and its tool calls; other blocks are
/// ignored.
pub fn fold_anthropic_blocks(blocks: &[AnthropicBlock]) -> (r: AnthropicContent)
    ensures
        r.content@ == answer_text(blocks@),
        reasoning_text(blocks@).len() == 0 ==> r.reasoning is None,
        reasoning_text(blocks@).len() > 0 ==> (r.reasoning matches Some(t) && t@ == reasoning_text(blocks@)),
        r.tool_calls@.map_values(|c: ToolCall| call_parts(c)) == requested_calls(blocks@),
{
    let mut content = String::new();
    let mut reasoning = String::new();
    let mut tool_calls: Vec<ToolCall> = Vec::new();
    let mut i: usize = 0;
    assert(blocks@.take(0) == Seq::<AnthropicBlock>::empty());
    while i < blocks.len()
        invariant
            i <= blocks.len(),
            content@ == answer_text(blocks@.take(i as int)),
            reasoning@ == reasoning_text(blocks@.take(i as int)),
            tool_calls@.map_values(|c: ToolCall| call_parts(c)) == requested_calls(blocks@.take(i as int)),
        decreases blocks.len() - i,
    {
        let b = &blocks[i];
        proof {
            reveal_strlit("text");
            reveal_strlit("thinking");
            reveal_strlit("tool_use");
            assert("text"@.len() == 4);
            assert("thinking"@.len() == 8);
            assert("tool_use"@.len() == 8);
            assert("thinking"@[1] != "tool_use"@[1]);
        }
        let ghost pre = blocks@.take(i as int);
        assert(blocks@.take(i + 1).drop_last() == pre);
        assert(blocks@.take(i + 1).last() == *b);
        if same_text(b.block_type.as_str(), "text") {
            match &b.text {
                Some(t) => push_str(&mut content, t.as_str()),
                None => {},
            }
        } else if same_text(b.block_type.as_str(), "thinking") {
            match &b.thinking {
                Some(t) => push_str(&mut reasoning, t.as_str()),
                None => {},
            }
        } else if same_text(b.block_type.as_str(), "tool_use") {
            match (&b.id, &b.name) {
                (Some(id), Some(name)) => {
                    let arguments = match &b.input {
                        Some(x) => x.clone(),
                        None => "{}".to_string(),
                    };
                    let ghost c0 = tool_calls@;
                    tool_calls.push(ToolCall { id: id.clone(), name: name.clone(), arguments });
                    assert(tool_calls@.map_values(|c: ToolCall| call_parts(c)) == c0.map_values(
                        |c: ToolCall| call_parts(c),
                    ).push(block_call(*b)->0));
                },
                _ => {},
            }
        }
        i += 1;
    }
    assert(blocks@.take(blocks.len() as int) == blocks@);
    let reasoning = if reasoning.as_str().is_empty() {
        None
    } else {
        Some(reasoning)
    };
    AnthropicContent { content, reasoning, tool_calls }
}

/// Token usage of a response that reports `input` prompt and `output`
/// completion tokens.
pub fn anthropic_usage(input: u32, output: u32) -> (u: TokenUsage)
    requires
        input + output <= u32::MAX,
    ensures
        u.prompt_tokens == input,
        u.completion_tokens == output,
        u.total_tokens == input + output,
{
    TokenUsage { prompt_tokens: input, completion_tokens: output, total_tokens: input + output }
}

/// The response to an Anthropic message whose content blocks folded into
/// `folded` and whose usage reports `input` and `output` tokens: the answer
/// text, the reasoning (thinking text) and the tool calls as folded.
pub fn anthropic_response(
    folded: AnthropicContent,
    model: String,
    input: u32,
    output: u32,
    stop_reason: Option<String>,
    id: Option<String>,
) -> (r: LLMResponse)
    requires
        input + output <= u32::MAX,
    ensures
        r.content == folded.content,
        r.reasoning == folded.reasoning,
        r.tool_calls == folded.tool_calls,
        r.model == model,
        r.usage.prompt_tokens == input,
        r.usage.completion_tokens == output,
        r.usage.total_tokens == input + output,
        r.finish_reason == stop_reason,
        r.id == id,
        r.created is None,
{
    let AnthropicContent { content, reasoning, tool_calls } = folded;
    LLMResponse {
        content,
        reasoning,
        model,
        usage: anthropic_usage(input, output),
        tool_calls,
        finish_reason: stop_reason,
        id,
        created: None,
    }
}

// ── Streaming chunks ──────────────────────────────────

/// An event a streaming chunk carries.
#[derive(Debug, Clone, PartialEq, Eq)]
pub enum ChunkEvent {
    /// A piece of the model's reasoning.
    Reasoning(String),
    /// A piece of the answer text.
    Text(String),
    /// Token usage.
    Usage(TokenUsage),
    /// The stream has ended.
    Done,
}

/// What the client reads of an OpenAI streaming chunk whose first choice has
/// a `delta` (other chunks carry no event).
pub struct OpenAIChunk {
    /// `choices[0].delta.reasoning_content`, when a string.
    pub reasoning: Option<String>,
    /// `choices[0].delta.content`, when a string.
    pub content: Option<String>,
    /// `usage` `(prompt_tokens, completion_tokens, total_tokens)`, when all
    /// three are unsigned integers.
    pub usage: Option<(u64, u64, u64)>,
    /// `choices[0].finish_reason` is a string.
    pub finished: bool,
}

/// The event of an OpenAI chunk: reasoning first, then answer text (empty
/// pieces carry nothing), then usage, then the end of the stream.
pub open spec fn openai_event_spec(c: OpenAIChunk) -> Option<ChunkEvent> {
    if c.reasoning is Some && c.reasoning->0@.len() > 0 {
        Some(ChunkEvent::Reasoning(c.reasoning->0))
    } else if c.content is Some && c.content->0@.len() > 0 {
        Some(ChunkEvent::Text(c.content->0))
    } else if c.usage is Some {
        let (p, k, t) = c.usage->0;
        Some(
            ChunkEvent::Usage(
                TokenUsage { prompt_tokens: p as u32, completion_tokens: k as u32, total_tokens: t as u32 },
            ),
        )
    } else if c.finished {
        Some(ChunkEvent::Done)
    } else {
        None
    }
}

/// The event an OpenAI streaming chunk carries.
pub fn openai_stream_event(c: OpenAIChunk) -> (e: Option<ChunkEvent>)
    ensures
        e == openai_event_spec(c),
{
    let OpenAIChunk { reasoning, content, usage, finished } = c;
    match reasoning {
        Some(r) => {
            if !r.as_str().is_empty() {
                return Some(ChunkEvent::Reasoning(r));
            }
        },
        None => {},
    }
    match content {
        Some(s) => {
            if !s.as_str().is_empty() {
                return Some(ChunkEvent::Text(s));
            }
        },
        None => {},
    }
    match usage {
        Some((p, k, t)) => {
            return Some(
                ChunkEvent::Usage(
                    TokenUsage { prompt_tokens: p as u32, completion_tokens: k as u32, total_tokens: t as u32 },
                ),
            );
        },
        None => {},
    }
    if finished {
        Some(ChunkEvent::Done)
    } else {
        None
    }
}

/// What the client reads of an Anthropic streaming chunk.
pub struct AnthropicChunk {
    /// The chunk has a `delta` member.
    pub has_delta: bool,
    /// `delta.type`, when a string.
    pub delta_type: Option<String>,
    /// `delta.thinking`, when a string.
    pub thinking: Option<String>,
    /// `delta.text`, when a string.
    pub text: Option<String>,
    /// `usage.output_tokens`, when an unsigned integer.
    pub output_tokens: Option<u64>,
}

/// The event of an Anthropic chunk of SSE event type `kind`: content deltas
/// carry thinking or text (empty pieces carry nothing), `message_delta`
/// carries the output token count or else ends the stream, `message_stop`
/// ends it.
pub open spec fn anthropic_event_spec(kind: Seq<char>, c: AnthropicChunk) -> Option<ChunkEvent> {
    if kind == "content_block_delta"@ {
        if !c.has_delta {
            None
        } else if c.delta_type is Some && c.delta_type->0@ == "thinking_delta"@ {
            if c.thinking is Some && c.thinking->0@.len() > 0 {
                Some(ChunkEvent::Reasoning(c.thinking->0))
            } else {
                None
            }
        } else if c.text is Some && c.text->0@.len() > 0 {
            Some(ChunkEvent::Text(c.text->0))
        } else {
            None
        }
    } else if kind == "message_delta"@ {
        match c.output_tokens {
            Some(n) => Some(
                ChunkEvent::Usage(TokenUsage { prompt_tokens: 0, completion_tokens: n as u32, total_tokens: 0 }),
            ),
            None => Some(ChunkEvent::Done),
        }
    } else if kind == "message_stop"@ {
        Some(ChunkEvent::Done)
    } else {
        None
    }
}

/// The event an Anthropic streaming chunk of SSE event type `kind` carries.
pub fn anthropic_stream_event(kind: &str, c: AnthropicChunk) -> (e: Option<ChunkEvent>)
    ensures
        e == anthropic_event_spec(kind@, c),
{
    proof {
        reveal_strlit("content_block_delta");
        reveal_strlit("message_delta");
        reveal_strlit("message_stop");
    }
    if same_text(kind, "content_block_delta") {
        if !c.has_delta {
            return None;
        }
        let thinking_delta = match &c.delta_type {
            Some(t) => same_text(t.as_str(), "thinking_delta"),
            None => false,
        };
        let AnthropicChunk { thinking, text, .. } = c;
        if thinking_delta {
            match thinking {
                Some(s) => if !s.as_str().is_empty() {
                    Some(ChunkEvent::Reasoning(s))
                } else {
                    None
                },
                None => None,
            }
        } else {
            match text {
                Some(s) => if !s.as_str().is_empty() {
                    Some(ChunkEvent::Text(s))
                } else {
                    None
                },
                None => None,
            }
        }
    } else if same_text(kind, "message_delta") {
        match c.output_tokens {
            Some(n) => Some(
                ChunkEvent::Usage(TokenUsage { prompt_tokens: 0, completion_tokens: n as u32, total_tokens: 0 }),
            ),
            None => Some(ChunkEvent::Done),
        }
    } else if same_text(kind, "message_stop") {
        Some(ChunkEvent::Done)
    } else {
        None
    }
}

/// The stream event of a chunk event: reasoning as a reasoning delta, answer
/// text as a delta, usage and the end as they are.
pub fn stream_event(e: ChunkEvent) -> (r: StreamEvent)
    ensures
        match e {
            ChunkEvent::Reasoning(t) => r == StreamEvent::ReasoningDelta { content: t },
            ChunkEvent::Text(t) => r == StreamEvent::Delta { content: t },
            ChunkEvent::Usage(u) => r == StreamEvent::Usage(u),
            ChunkEvent::Done => r == StreamEvent::Done,
        },
{
    match e {
        ChunkEvent::Reasoning(content) => StreamEvent::ReasoningDelta { content },
        ChunkEvent::Text(content) => StreamEvent::Delta { content },
        ChunkEvent::Usage(u) => StreamEvent::Usage(u),
        ChunkEvent::Done => StreamEvent::Done,
    }
}

} // verus!
