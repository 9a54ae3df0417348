//! Bearer token authentication for MCP servers.
use vstd::prelude::*;
use vstd::string::StringSliceAdditionalSpecFns;

use crate::error::KernelError;
use crate::llm::client::hex_digit;
use crate::text::{chars_of, is_ws, push_char, string_from_range, trim, trim_bounds, trim_end, trim_start};

verus! {

/// Byte-wise equality accumulated with `|` over `^`, as the comparison loop computes it.
proof fn lemma_xor_acc(acc: u8, x: u8, y: u8)
    ensures
        ((acc | (x ^ y)) == 0) <==> (acc == 0 && x == y),
{
    assert(((acc | (x ^ y)) == 0) <==> (acc == 0 && x == y)) by (bit_vector);
}

/// Compare two strings byte by byte without stopping at the first
/// difference (a length mismatch still returns early).
pub fn constant_time_eq(a: &str, b: &str) -> (eq: bool)
    ensures
        eq == (a.spec_bytes() == b.spec_bytes()),
{
    let x = a.as_bytes();
    let y = b.as_bytes();
    if x.len() != y.len() {
        return false;
    }
    let mut acc: u8 = 0;
    let mut i: usize = 0;
    while i < x.len()
        invariant
            i <= x.len(),
            x.len() == y.len(),
            (acc == 0) == (forall|k: int| 0 <= k < i ==> x@[k] == y@[k]),
        decreases x.len() - i,
    {
        proof {
            lemma_xor_acc(acc, x@[i as int], y@[i as int]);
        }
        acc = acc | (x[i] ^ y[i]);
        i += 1;
    }
    assert((acc == 0) == (x@ == y@)) by {
        if acc == 0 {
            assert(x@ =~= y@);
        }
    }
    acc == 0
}

/// ASCII lowercase of a character (other characters unchanged).
pub open spec fn ascii_lower(c: char) -> char {
    if 'A' <= c && c <= 'Z' {
        ((c as u32) + 32) as char
    } else {
        c
    }
}

/// Whether `s` is `Bearer` in any ASCII case.
pub open spec fn is_bearer_scheme(s: Seq<char>) -> bool {
    s.len() == 6 && ascii_lower(s[0]) == 'b' && ascii_lower(s[1]) == 'e' && ascii_lower(s[2])
        == 'a' && ascii_lower(s[3]) == 'r' && ascii_lower(s[4]) == 'e' && ascii_lower(s[5]) == 'r'
}

/// Index of the first space in `s`.
pub open spec fn first_space(s: Seq<char>) -> Option<int> {
    if exists|i: int| 0 <= i < s.len() && s[i] == ' ' && forall|j: int| 0 <= j < i ==> s[j] != ' ' {
        Some(choose|i: int| 0 <= i < s.len() && s[i] == ' ' && forall|j: int| 0 <= j < i ==> s[j] != ' ')
    } else {
        None
    }
}

/// Whether an `Authorization` header value carries `token`: the part before
/// the first space is `Bearer` (any ASCII case) and the rest, trimmed, is
/// exactly `token`.
pub open spec fn header_authorizes(header: Seq<char>, token: Seq<char>) -> bool {
    match first_space(header) {
        Some(i) => is_bearer_scheme(header.take(i)) && trim(header.skip(i + 1)) == token,
        None => false,
    }
}

/// Lowercase hex text of `bytes`, two digits per byte.
pub open spec fn hex_text(bytes: Seq<u8>) -> Seq<char>
    decreases bytes.len(),
{
    if bytes.len() == 0 {
        Seq::empty()
    } else {
        hex_text(bytes.drop_last()) + seq![
            hex_digit((bytes.last() / 16) as int),
            hex_digit((bytes.last() % 16) as int),
        ]
    }
}

/// Bearer token authenticator for MCP HTTP transport.
pub struct BearerAuth {
    token: String,
}

/// Sixteen bytes from the operating system's CSPRNG (`getrandom::fill`), or
/// the error's text. Nothing is claimed of the bytes beyond their number.
#[verifier::external_body]
fn os_random_16() -> (r: Result<Vec<u8>, String>)
    ensures
        r matches Ok(v) ==> v@.len() == 16,
{
    let mut bytes = [0u8; 16];
    match getrandom::fill(&mut bytes) {
        Ok(()) => Ok(bytes.to_vec()),
        Err(e) => Err(e.to_string()),
    }
}

fn hex_char(d: u8) -> (c: char)
    requires
        d < 16,
    ensures
        c == hex_digit(d as int),
{
    let v: Vec<char> = vec!['0', '1', '2', '3', '4', '5', '6', '7', '8', '9', 'a', 'b', 'c', 'd', 'e', 'f'];
    assert(v@ == seq!['0', '1', '2', '3', '4', '5', '6', '7', '8', '9', 'a', 'b', 'c', 'd', 'e', 'f']);
    v[d as usize]
}

impl BearerAuth {
    /// The expected token.
    pub closed spec fn token_spec(&self) -> Seq<char> {
        self.token@
    }

    /// Create a new bearer auth with the given token.
    pub fn new(token: &str) -> (a: BearerAuth)
        ensures
            a.token_spec() == token@,
    {
        BearerAuth { token: token.to_owned() }
    }

    /// Build an authenticator whose token is the lowercase hex of `bytes`.
    pub fn from_bytes(bytes: &[u8]) -> (a: BearerAuth)
        ensures
            a.token_spec() == hex_text(bytes@),
    {
        let mut token = String::new();
        let mut i: usize = 0;
        assert(bytes@.take(0) == Seq::<u8>::empty());
        while i < bytes.len()
            invariant
                i <= bytes.len(),
                token@ == hex_text(bytes@.take(i as int)),
            decreases bytes.len() - i,
        {
            let b = bytes[i];
            push_char(&mut token, hex_char(b / 16));
            push_char(&mut token, hex_char(b % 16));
            assert(bytes@.take(i + 1).drop_last() == bytes@.take(i as int));
            i += 1;
        }
        assert(bytes@.take(bytes.len() as int) == bytes@);
        BearerAuth { token }
    }

    /// Generate a random bearer token: 128 bits of OS entropy, hex-encoded.
    /// Fails rather than fall back to a guessable token.
    pub fn try_generate() -> (r: Result<BearerAuth, KernelError>)
        ensures
            r matches Ok(a) ==> exists|b: Seq<u8>| b.len() == 16 && a.token_spec() == hex_text(b),
            r matches Err(e) ==> e is Config,
    {
        match os_random_16() {
            Ok(bytes) => Ok(Self::from_bytes(bytes.as_slice())),
            Err(msg) => {
                let mut m = String::new();
                crate::text::push_str(&mut m, "failed to read OS entropy for token: ");
                crate::text::push_str(&mut m, msg.as_str());
                Err(KernelError::Config(m))
            },
        }
    }

    /// Validate a bearer token from an `Authorization` header value. The
    /// scheme is matched case-insensitively.
    pub fn validate(&self, header_value: &str) -> (ok: bool)
        ensures
            ok == header_authorizes(header_value@, self.token_spec()),
    {
        let v = chars_of(header_value);
        let mut i: usize = 0;
        while i < v.len() && v[i] != ' '
            invariant
                i <= v.len(),
                v@ == header_value@,
                forall|j: int| 0 <= j < i ==> v@[j] != ' ',
            decreases v.len() - i,
        {
            i += 1;
        }
        if i == v.len() {
            assert(first_space(v@) is None);
            return false;
        }
        proof {
            assert(v@[i as int] == ' ');
            let k = choose|k: int| 0 <= k < v@.len() && v@[k] == ' ' && forall|j: int|
                0 <= j < k ==> v@[j] != ' ';
            assert(k == i) by {
                if k < i {
                    assert(v@[k] != ' ');
                } else if k > i {
                    assert(v@[i as int] != ' ');
                }
            }
        }
        let scheme_ok = i == 6 && lower_eq(v[0], 'b') && lower_eq(v[1], 'e') && lower_eq(v[2], 'a')
            && lower_eq(v[3], 'r') && lower_eq(v[4], 'e') && lower_eq(v[5], 'r');
        assert(scheme_ok == is_bearer_scheme(v@.take(i as int)));
        if !scheme_ok {
            return false;
        }
        let tail = crate::text::slice_to_vec(v.as_slice(), i + 1, v.len());
        assert(tail@ == v@.skip(i + 1));
        let (lo, hi) = trim_bounds(tail.as_slice());
        let t = string_from_range(tail.as_slice(), lo, hi);
        let eq = constant_time_eq(t.as_str(), self.token.as_str());
        proof {
            vstd::utf8::encode_utf8_decode_utf8(t@);
            vstd::utf8::encode_utf8_decode_utf8(self.token@);
        }
        eq
    }

    /// Get the raw token value.
    pub fn token(&self) -> (t: &str)
        ensures
            t@ == self.token_spec(),
    {
        self.token.as_str()
    }

    /// The debugging form of the authenticator, with the token redacted: the
    /// same text whatever the token.
    pub fn debug_string(&self) -> (s: String)
        ensures
            s@ == "BearerAuth { token: \"<redacted>\" }"@,
    {
        "BearerAuth { token: \"<redacted>\" }".to_string()
    }
}

/// `c` lowercased (ASCII only) equals the lowercase letter `l`.
fn lower_eq(c: char, l: char) -> (b: bool)
    requires
        'a' <= l && l <= 'z',
    ensures
        b == (ascii_lower(c) == l),
{
    if 'A' <= c && c <= 'Z' {
        let u = c as u32 + 32;
        proof {
            vstd::utf8::char_u32_cast(l, l as u32);
        }
        u == l as u32
    } else {
        c == l
    }
}


/// Whether a request may proceed: always without configured authentication,
/// else when its `Authorization` header (empty when absent) carries the
/// token under the `Bearer` scheme.
pub fn check_auth(auth: Option<&BearerAuth>, header: Option<&str>) -> (ok: bool)
    ensures
        ok == match auth {
            None => true,
            Some(a) => header_authorizes(
                match header {
                    Some(h) => h@,
                    None => Seq::empty(),
                },
                a.token_spec(),
            ),
        },
{
    match auth {
        None => true,
        Some(a) => match header {
            Some(h) => a.validate(h),
            None => {
                proof {
                    reveal_strlit("");
                }
                a.validate("")
            },
        },
    }
}

// ── Laws ──────────────────────────────────────────────

proof fn lemma_trim_plain(t: Seq<char>)
    requires
        forall|i: int| 0 <= i < t.len() ==> !is_ws(#[trigger] t[i]),
    ensures
        trim(t) == t,
{
    if t.len() > 0 {
        assert(!is_ws(t[0]));
        assert(!is_ws(t[t.len() - 1]));
        assert(trim_start(t) == t);
        assert(trim_end(t) == t);
    }
}

/// The authenticator of a whitespace-free token accepts the header
/// `Bearer <token>`.
pub proof fn lemma_bearer_header_accepted(token: Seq<char>)
    requires
        forall|i: int| 0 <= i < token.len() ==> !is_ws(#[trigger] token[i]),
    ensures
        header_authorizes("Bearer "@ + token, token),
{
    reveal_strlit("Bearer ");
    let p = "Bearer "@;
    let h = p + token;
    assert(p.len() == 7 && p[0] == 'B' && p[1] == 'e' && p[2] == 'a' && p[3] == 'r' && p[4] == 'e'
        && p[5] == 'r' && p[6] == ' ');
    assert(h[6] == ' ');
    assert(forall|j: int| 0 <= j < 6 ==> h[j] != ' ');
    assert(exists|i: int| 0 <= i < h.len() && h[i] == ' ' && forall|j: int| 0 <= j < i ==> h[j] != ' ');
    let i = choose|i: int| 0 <= i < h.len() && h[i] == ' ' && forall|j: int| 0 <= j < i ==> h[j] != ' ';
    if i < 6 {
        assert(h[i] != ' ');
    } else if i > 6 {
        assert(h[6] != ' ');
    }
    assert(first_space(h) == Some(6int));
    let s = h.take(6);
    assert(s[0] == 'B' && s[1] == 'e' && s[2] == 'a' && s[3] == 'r' && s[4] == 'e' && s[5] == 'r');
    assert(is_bearer_scheme(s));
    assert(h.skip(7) =~= token);
    lemma_trim_plain(token);
}

/// Lowercase hex text has no whitespace.
pub proof fn lemma_hex_text_plain(bytes: Seq<u8>)
    ensures
        forall|i: int| 0 <= i < hex_text(bytes).len() ==> !is_ws(#[trigger] hex_text(bytes)[i]),
    decreases bytes.len(),
{
    if bytes.len() > 0 {
        let d = bytes.drop_last();
        lemma_hex_text_plain(d);
        let hi = (bytes.last() / 16) as int;
        let lo = (bytes.last() % 16) as int;
        lemma_hex_digit_plain(hi);
        lemma_hex_digit_plain(lo);
        let t = hex_text(bytes);
        assert forall|i: int| 0 <= i < t.len() implies !is_ws(#[trigger] t[i]) by {
            if i < hex_text(d).len() {
                assert(t[i] == hex_text(d)[i]);
            }
        }
    }
}

proof fn lemma_hex_digit_plain(d: int)
    requires
        0 <= d < 16,
    ensures
        !is_ws(hex_digit(d)),
{
}

/// A generated token, the hex text of random bytes, is accepted by its own
/// authenticator under the `Bearer` scheme.
pub proof fn lemma_generated_token_accepted(bytes: Seq<u8>)
    ensures
        header_authorizes("Bearer "@ + hex_text(bytes), hex_text(bytes)),
{
    lemma_hex_text_plain(bytes);
    lemma_bearer_header_accepted(hex_text(bytes));
}

} // verus!
