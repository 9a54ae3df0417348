//! Extract JSON from raw LLM text output: fenced code blocks or the first
//! balanced object/array buried in prose.
use vstd::prelude::*;

use crate::text::{
    chars_of, find_chars, find_from, lemma_find_from_bounds, string_from_range, trim, trim_bounds,
};

verus! {

/// The backtick fence opener, followed by `lang`.
pub open spec fn fence_opener(lang: Seq<char>) -> Seq<char> {
    seq!['`', '`', '`'] + lang
}

/// The body of the first fenced block opened by ```` ```lang ````: the text
/// from the line after the opener up to the next ```` ``` ````, trimmed;
/// `None` when there is no such block or its body is blank.
pub open spec fn fenced_body(t: Seq<char>, lang: Seq<char>) -> Option<Seq<char>> {
    let opener = fence_opener(lang);
    match find_from(t, opener, 0) {
        None => None,
        Some(start) => {
            let after = start + opener.len();
            let body_start = match find_from(t, seq!['\n'], after) {
                Some(nl) => nl + 1,
                None => after,
            };
            match find_from(t, seq!['`', '`', '`'], body_start) {
                None => None,
                Some(close) => {
                    let body = trim(t.subrange(body_start, close));
                    if body.len() == 0 {
                        None
                    } else {
                        Some(body)
                    }
                },
            }
        },
    }
}

/// Whether `s`, trimmed, starts with `{` or `[`.
pub open spec fn looks_like_json_spec(s: Seq<char>) -> bool {
    let t = trim(s);
    t.len() > 0 && (t[0] == '{' || t[0] == '[')
}

/// Scan for the character closing a bracket opened before position `i`,
/// with nesting `depth`, inside a string literal or not, after a backslash
/// inside a string or not. Returns the index of the matching `close`.
pub open spec fn balanced_scan(
    s: Seq<char>,
    open: char,
    close: char,
    i: int,
    depth: int,
    in_string: bool,
    escape: bool,
) -> Option<int>
    decreases s.len() - i,
{
    if i < 0 || i >= s.len() {
        None
    } else {
        let b = s[i];
        if escape {
            balanced_scan(s, open, close, i + 1, depth, in_string, false)
        } else if b == '\\' && in_string {
            balanced_scan(s, open, close, i + 1, depth, in_string, true)
        } else if b == '"' {
            balanced_scan(s, open, close, i + 1, depth, !in_string, false)
        } else if in_string {
            balanced_scan(s, open, close, i + 1, depth, in_string, false)
        } else if b == open {
            balanced_scan(s, open, close, i + 1, depth + 1, in_string, false)
        } else if b == close {
            if depth - 1 == 0 {
                Some(i)
            } else {
                balanced_scan(s, open, close, i + 1, depth - 1, in_string, false)
            }
        } else {
            balanced_scan(s, open, close, i + 1, depth, in_string, false)
        }
    }
}

/// The closer for an opening bracket.
pub open spec fn closer_of(c: char) -> char {
    if c == '{' {
        '}'
    } else {
        ']'
    }
}

/// The first `{`/`[` at or after `i` whose bracket closes, with the text up
/// to and including its closer.
pub open spec fn balanced_from(s: Seq<char>, i: int) -> Option<Seq<char>>
    decreases s.len() - i,
{
    if i < 0 || i >= s.len() {
        None
    } else if s[i] == '{' || s[i] == '[' {
        match balanced_scan(s, s[i], closer_of(s[i]), i, 0, false, false) {
            Some(end) => Some(s.subrange(i, end + 1)),
            None => balanced_from(s, i + 1),
        }
    } else {
        balanced_from(s, i + 1)
    }
}

/// What `extract_json` finds in `text`.
pub open spec fn extract_json_spec(text: Seq<char>) -> Option<Seq<char>> {
    let t = trim(text);
    match fenced_body(t, "json"@) {
        Some(b) => Some(b),
        None => match fenced_body(t, Seq::empty()) {
            Some(b) => if looks_like_json_spec(b) {
                Some(b)
            } else {
                balanced_from(t, 0)
            },
            None => balanced_from(t, 0),
        },
    }
}

fn extract_fenced(t: &[char], lang: &[char]) -> (r: Option<String>)
    ensures
        match r {
            Some(b) => fenced_body(t@, lang@) == Some(b@),
            None => fenced_body(t@, lang@) is None,
        },
{
    let mut opener: Vec<char> = Vec::new();
    opener.push('`');
    opener.push('`');
    opener.push('`');
    let mut k: usize = 0;
    while k < lang.len()
        invariant
            k <= lang.len(),
            opener@ == seq!['`', '`', '`'] + lang@.take(k as int),
        decreases lang.len() - k,
    {
        opener.push(lang[k]);
        assert(lang@.take(k + 1) == lang@.take(k as int).push(lang@[k as int]));
        k += 1;
    }
    assert(lang@.take(lang.len() as int) == lang@);
    let start = match find_chars(t, opener.as_slice(), 0) {
        Some(s) => s,
        None => return None,
    };
    proof {
        lemma_find_from_bounds(t@, opener@, 0);
    }
    assert(start + opener@.len() <= t@.len());
    let after = start + opener.len();
    let nl: Vec<char> = vec!['\n'];
    assert(nl@ == seq!['\n']);
    let body_start = match find_chars(t, nl.as_slice(), after) {
        Some(i) => {
            proof {
                lemma_find_from_bounds(t@, nl@, after as int);
            }
            i + 1
        },
        None => after,
    };
    let fence: Vec<char> = vec!['`', '`', '`'];
    assert(fence@ == seq!['`', '`', '`']);
    let close = match find_chars(t, fence.as_slice(), body_start) {
        Some(c) => c,
        None => return None,
    };
    proof {
        lemma_find_from_bounds(t@, fence@, body_start as int);
    }
    let body_chars = crate::text::slice_to_vec(t, body_start, close);
    let (lo, hi) = trim_bounds(body_chars.as_slice());
    if lo == hi {
        return None;
    }
    Some(string_from_range(body_chars.as_slice(), lo, hi))
}

fn looks_like_json(s: &str) -> (b: bool)
    ensures
        b == looks_like_json_spec(s@),
{
    let v = chars_of(s);
    let (lo, hi) = trim_bounds(v.as_slice());
    if lo == hi {
        return false;
    }
    assert(v@.subrange(lo as int, hi as int)[0] == v@[lo as int]);
    v[lo] == '{' || v[lo] == '['
}

fn find_balanced_end(s: &[char], start: usize, open: char, close: char) -> (r: Option<usize>)
    requires
        start < s.len(),
        s@[start as int] == open,
        open != '\\' && open != '"',
    ensures
        match r {
            Some(i) => Some(i as int) == balanced_scan(s@, open, close, start as int, 0, false, false),
            None => balanced_scan(s@, open, close, start as int, 0, false, false) is None,
        },
{
    let mut depth: u64 = 0;
    let mut in_string = false;
    let mut escape = false;
    let mut i: usize = start;
    while i < s.len()
        invariant
            start <= i <= s.len(),
            depth <= i - start,
            s@[start as int] == open,
            open != '\\' && open != '"',
            i == start ==> depth == 0 && !in_string && !escape,
            i > start ==> depth >= 1,
            balanced_scan(s@, open, close, start as int, 0, false, false) == balanced_scan(
                s@,
                open,
                close,
                i as int,
                depth as int,
                in_string,
                escape,
            ),
        decreases s.len() - i,
    {
        let b = s[i];
        if escape {
            escape = false;
        } else if b == '\\' && in_string {
            escape = true;
        } else if b == '"' {
            in_string = !in_string;
        } else if in_string {
        } else if b == open {
            depth += 1;
        } else if b == close {
            if depth == 1 {
                return Some(i);
            }
            depth -= 1;
        }
        i += 1;
    }
    None
}

fn find_balanced_json(t: &[char]) -> (r: Option<String>)
    ensures
        match r {
            Some(x) => balanced_from(t@, 0) == Some(x@),
            None => balanced_from(t@, 0) is None,
        },
{
    let mut i: usize = 0;
    while i < t.len()
        invariant
            i <= t.len(),
            balanced_from(t@, 0) == balanced_from(t@, i as int),
        decreases t.len() - i,
    {
        let c = t[i];
        if c == '{' || c == '[' {
            let close = if c == '{' {
                '}'
            } else {
                ']'
            };
            match find_balanced_end(t, i, c, close) {
                Some(end) => {
                    proof {
                        lemma_scan_in_range(t@, c, close, i as int, 0, false, false);
                    }
                    return Some(string_from_range(t, i, end + 1));
                },
                None => {},
            }
        }
        i += 1;
    }
    None
}

proof fn lemma_scan_in_range(
    s: Seq<char>,
    open: char,
    close: char,
    i: int,
    depth: int,
    in_string: bool,
    escape: bool,
)
    ensures
        balanced_scan(s, open, close, i, depth, in_string, escape) matches Some(k) ==> i <= k
            < s.len(),
    decreases s.len() - i,
{
    if i < 0 || i >= s.len() {
    } else {
        lemma_scan_in_range(s, open, close, i + 1, depth, in_string, false);
        lemma_scan_in_range(s, open, close, i + 1, depth, in_string, true);
        lemma_scan_in_range(s, open, close, i + 1, depth, !in_string, false);
        lemma_scan_in_range(s, open, close, i + 1, depth + 1, in_string, false);
        lemma_scan_in_range(s, open, close, i + 1, depth - 1, in_string, false);
    }
}

/// Extract the first JSON object or array from raw LLM text: a ```` ```json ````
/// fenced block, else a plain fenced block whose body looks like JSON, else
/// the first balanced `{...}` or `[...]` (string literals and escapes
/// respected).
pub fn extract_json(text: &str) -> (r: Option<String>)
    ensures
        match r {
            Some(x) => extract_json_spec(text@) == Some(x@),
            None => extract_json_spec(text@) is None,
        },
{
    let v = chars_of(text);
    let (lo, hi) = trim_bounds(v.as_slice());
    let t = crate::text::slice_to_vec(v.as_slice(), lo, hi);
    let json_lang: Vec<char> = vec!['j', 's', 'o', 'n'];
    proof {
        reveal_strlit("json");
    }
    assert(json_lang@ == "json"@);
    if let Some(x) = extract_fenced(t.as_slice(), json_lang.as_slice()) {
        return Some(x);
    }
    let empty: Vec<char> = Vec::new();
    assert(empty@ == Seq::<char>::empty());
    if let Some(x) = extract_fenced(t.as_slice(), empty.as_slice()) {
        if looks_like_json(x.as_str()) {
            return Some(x);
        }
    }
    find_balanced_json(t.as_slice())
}

/// The length of the string-literal body at the start of `t`, up to (not
/// including) its closing quote: a backslash takes the character after it
/// into the body, whatever it is. `None` when the literal does not close.
pub open spec fn string_body_len(t: Seq<char>) -> Option<nat>
    decreases t.len(),
{
    if t.len() == 0 {
        None
    } else if t[0] == '"' {
        Some(0)
    } else if t[0] == '\\' {
        if t.len() < 2 {
            None
        } else {
            match string_body_len(t.skip(2)) {
                Some(n) => Some(n + 2),
                None => None,
            }
        }
    } else {
        match string_body_len(t.drop_first()) {
            Some(n) => Some(n + 1),
            None => None,
        }
    }
}

/// The members text of an object, `depth` brackets deep: characters other
/// than quotes and braces, complete string literals (which may hold anything,
/// escaped quotes and braces included), and nested `{...}` objects; every
/// brace opened inside is closed by the end.
pub open spec fn object_members(u: Seq<char>, depth: nat) -> bool
    decreases u.len(),
{
    if u.len() == 0 {
        depth == 0
    } else if u[0] == '"' {
        match string_body_len(u.drop_first()) {
            Some(n) => if n + 2 <= u.len() {
                object_members(u.skip(n + 2int), depth)
            } else {
                false
            },
            None => false,
        }
    } else if u[0] == '{' {
        object_members(u.drop_first(), depth + 1)
    } else if u[0] == '}' {
        depth > 0 && object_members(u.drop_first(), (depth - 1) as nat)
    } else {
        object_members(u.drop_first(), depth)
    }
}

proof fn lemma_string_body_len_bounds(t: Seq<char>)
    ensures
        string_body_len(t) matches Some(n) ==> n < t.len() && t[n as int] == '"',
        forall|x: Seq<char>| #[trigger] string_body_len(t + x) == string_body_len(t) || string_body_len(t) is None,
    decreases t.len(),
{
    if t.len() == 0 {
    } else if t[0] == '"' {
        assert forall|x: Seq<char>| #[trigger] string_body_len(t + x) == string_body_len(t) by {
            assert((t + x)[0] == '"');
        }
    } else if t[0] == '\\' {
        if t.len() >= 2 {
            lemma_string_body_len_bounds(t.skip(2));
            assert forall|x: Seq<char>| #[trigger] string_body_len(t + x) == string_body_len(t)
                || string_body_len(t) is None by {
                assert((t + x).skip(2) == t.skip(2) + x);
                assert(string_body_len(t.skip(2) + x) == string_body_len(t.skip(2)) || string_body_len(t.skip(2)) is None);
            }
            if string_body_len(t) is Some {
                let n = string_body_len(t.skip(2))->0;
                assert(t.skip(2)[n as int] == t[n + 2int]);
            }
        }
    } else {
        lemma_string_body_len_bounds(t.drop_first());
        assert forall|x: Seq<char>| #[trigger] string_body_len(t + x) == string_body_len(t)
            || string_body_len(t) is None by {
            assert((t + x).drop_first() == t.drop_first() + x);
            assert(string_body_len(t.drop_first() + x) == string_body_len(t.drop_first()) || string_body_len(t.drop_first()) is None);
        }
        if string_body_len(t) is Some {
            let n = string_body_len(t.drop_first())->0;
            assert(t.drop_first()[n as int] == t[n + 1int]);
        }
    }
}

/// Inside a string literal the scan skips the whole literal: the character
/// after a backslash never ends it, and the scan resumes outside the string
/// just after its closing quote, at the same depth.
pub proof fn lemma_scan_skips_string_literal(
    s: Seq<char>,
    open: char,
    close: char,
    i: int,
    depth: int,
)
    requires
        0 <= i <= s.len(),
        string_body_len(s.skip(i)) is Some,
    ensures
        balanced_scan(s, open, close, i, depth, true, false) == balanced_scan(
            s,
            open,
            close,
            i + string_body_len(s.skip(i))->0 + 1,
            depth,
            false,
            false,
        ),
    decreases s.len() - i,
{
    let t = s.skip(i);
    assert(t.len() > 0);
    assert(t[0] == s[i]);
    reveal_with_fuel(balanced_scan, 3);
    if s[i] == '"' {
    } else if s[i] == '\\' {
        assert(t.skip(2) == s.skip(i + 2));
        lemma_scan_skips_string_literal(s, open, close, i + 2, depth);
    } else {
        assert(t.drop_first() == s.skip(i + 1));
        lemma_scan_skips_string_literal(s, open, close, i + 1, depth);
    }
}

proof fn lemma_object_scan(u: Seq<char>, k: int, depth: nat)
    requires
        0 <= k <= u.len(),
        object_members(u.skip(k), depth),
    ensures
        balanced_scan(seq!['{'] + u + seq!['}'], '{', '}', k + 1, depth + 1int, false, false) == Some(
            u.len() + 1int,
        ),
    decreases u.len() - k,
{
    let s = seq!['{'] + u + seq!['}'];
    let v = u.skip(k);
    if k == u.len() {
        assert(s[k + 1] == '}');
    } else {
        assert(s[k + 1] == u[k]);
        assert(v[0] == u[k]);
        assert(v.drop_first() == u.skip(k + 1));
        if u[k] == '"' {
            let n = string_body_len(v.drop_first())->0;
            lemma_string_body_len_bounds(u.skip(k + 1));
            assert(s.skip(k + 2) == u.skip(k + 1) + seq!['}']);
            assert(string_body_len(u.skip(k + 1) + seq!['}']) == string_body_len(u.skip(k + 1)));
            lemma_scan_skips_string_literal(s, '{', '}', k + 2, depth + 1int);
            assert(v.skip(n + 2int) == u.skip(k + n + 2));
            lemma_object_scan(u, k + n + 2, depth);
        } else if u[k] == '{' {
            lemma_object_scan(u, k + 1, depth + 1);
        } else if u[k] == '}' {
            lemma_object_scan(u, k + 1, (depth - 1) as nat);
        } else {
            lemma_object_scan(u, k + 1, depth);
        }
    }
}

/// An object whose members are plain characters, complete string literals
/// (escaped quotes and braces inside them included) and nested objects is
/// found whole by the balanced scan, from its opening brace to the brace
/// that closes it.
pub proof fn lemma_object_found_whole(u: Seq<char>)
    requires
        object_members(u, 0),
    ensures
        balanced_scan(seq!['{'] + u + seq!['}'], '{', '}', 0, 0, false, false) == Some(
            u.len() + 1int,
        ),
        balanced_from(seq!['{'] + u + seq!['}'], 0) == Some(seq!['{'] + u + seq!['}']),
{
    let s = seq!['{'] + u + seq!['}'];
    assert(u.skip(0) == u);
    lemma_object_scan(u, 0, 0);
    assert(s[0] == '{');
    assert(s.subrange(0, u.len() + 2int) == s);
}

} // verus!
