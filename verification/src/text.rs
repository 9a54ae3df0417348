//! Character-level string helpers shared by the whole crate, with the
//! mathematical model of splitting, trimming and joining that the contracts
//! of the other modules are written in.
use vstd::prelude::*;
use vstd::string::StringExecFns;

verus! {

// ── Model ─────────────────────────────────────────────

/// Unicode `White_Space`, which is what `char::is_whitespace` tests.
pub open spec fn is_ws(c: char) -> bool {
    ||| c == ' ' || c == '\t' || c == '\n' || c == '\r'
    ||| c == '\u{0B}' || c == '\u{0C}'
    ||| c == '\u{85}' || c == '\u{A0}' || c == '\u{1680}'
    ||| ('\u{2000}' <= c && c <= '\u{200A}')
    ||| c == '\u{2028}' || c == '\u{2029}' || c == '\u{202F}' || c == '\u{205F}'
    ||| c == '\u{3000}'
}

/// `s` with leading whitespace removed.
pub open spec fn trim_start(s: Seq<char>) -> Seq<char>
    decreases s.len(),
{
    if s.len() > 0 && is_ws(s[0]) {
        trim_start(s.drop_first())
    } else {
        s
    }
}

/// `s` with trailing whitespace removed.
pub open spec fn trim_end(s: Seq<char>) -> Seq<char>
    decreases s.len(),
{
    if s.len() > 0 && is_ws(s.last()) {
        trim_end(s.drop_last())
    } else {
        s
    }
}

/// `s` with whitespace removed at both ends (`str::trim`).
pub open spec fn trim(s: Seq<char>) -> Seq<char> {
    trim_end(trim_start(s))
}

/// The pieces of `s` between the characters equal to `sep` (`str::split`):
/// always at least one piece, possibly empty ones.
pub open spec fn split_on(s: Seq<char>, sep: char) -> Seq<Seq<char>>
    decreases s.len(),
{
    if s.len() == 0 {
        seq![Seq::empty()]
    } else {
        let f = split_on(s.drop_last(), sep);
        if s.last() == sep {
            f.push(Seq::empty())
        } else {
            f.update(f.len() - 1, f.last().push(s.last()))
        }
    }
}

/// The pieces of `s` between whitespace characters, empty ones included.
pub open spec fn split_ws_raw(s: Seq<char>) -> Seq<Seq<char>>
    decreases s.len(),
{
    if s.len() == 0 {
        seq![Seq::empty()]
    } else {
        let f = split_ws_raw(s.drop_last());
        if is_ws(s.last()) {
            f.push(Seq::empty())
        } else {
            f.update(f.len() - 1, f.last().push(s.last()))
        }
    }
}

/// Non-empty pieces of a split.
pub open spec fn non_empty(pieces: Seq<Seq<char>>) -> Seq<Seq<char>> {
    pieces.filter(|p: Seq<char>| p.len() > 0)
}

/// The words of `s`: maximal runs of non-whitespace (`str::split_whitespace`).
pub open spec fn words(s: Seq<char>) -> Seq<Seq<char>> {
    non_empty(split_ws_raw(s))
}

/// The pieces of `list` joined by `sep` (`[String]::join`).
pub open spec fn join(list: Seq<Seq<char>>, sep: Seq<char>) -> Seq<char>
    decreases list.len(),
{
    if list.len() == 0 {
        Seq::empty()
    } else if list.len() == 1 {
        list[0]
    } else {
        join(list.drop_last(), sep) + sep + list.last()
    }
}

/// `names` without repetitions, keeping first occurrences in order.
pub open spec fn dedup(names: Seq<Seq<char>>) -> Seq<Seq<char>>
    decreases names.len(),
{
    if names.len() == 0 {
        Seq::empty()
    } else {
        let d = dedup(names.drop_last());
        if d.contains(names.last()) {
            d
        } else {
            d.push(names.last())
        }
    }
}

/// The views of a vector of strings.
pub open spec fn views(v: Seq<String>) -> Seq<Seq<char>> {
    v.map_values(|x: String| x@)
}

/// The positions `j < n` of `items`, in increasing order, whose text does
/// not occur in `excluded`.
pub open spec fn positions_outside(excluded: Seq<Seq<char>>, items: Seq<Seq<char>>, n: int) -> Seq<int>
    decreases n,
{
    if n <= 0 {
        Seq::empty()
    } else {
        let r = positions_outside(excluded, items, n - 1);
        if excluded.contains(items[n - 1]) {
            r
        } else {
            r.push(n - 1)
        }
    }
}

/// The text of an optional string slice.
pub open spec fn opt_view(o: Option<&str>) -> Option<Seq<char>> {
    match o {
        Some(s) => Some(s@),
        None => None,
    }
}

/// The text of an optional string.
pub open spec fn opt_text(o: Option<String>) -> Option<Seq<char>> {
    match o {
        Some(s) => Some(s@),
        None => None,
    }
}

// ── Executable helpers ────────────────────────────────

/// Appends one character to a string (`String::push`).
#[verifier::external_body]
pub(crate) fn push_char(s: &mut String, c: char)
    ensures
        final(s)@ == old(s)@.push(c),
{
    s.push(c);
}

/// Appends a string slice to a string.
pub(crate) fn push_str(s: &mut String, t: &str)
    ensures
        final(s)@ == old(s)@ + t@,
{
    s.append(t);
}

/// The characters of `s`, in order.
pub fn chars_of(s: &str) -> (v: Vec<char>)
    ensures
        v@ == s@,
{
    let mut v: Vec<char> = Vec::new();
    for c in it: s.chars()
        invariant
            v@ == it.seq().take(it.index() as int),
            it.seq() == s@,
    {
        v.push(c);
    }
    v
}

/// Builds a string from a sequence of characters.
pub fn string_from_chars(v: &[char]) -> (s: String)
    ensures
        s@ == v@,
{
    let mut s = String::new();
    let mut i: usize = 0;
    while i < v.len()
        invariant
            i <= v.len(),
            s@ == v@.take(i as int),
        decreases v.len() - i,
    {
        push_char(&mut s, v[i]);
        assert(v@.take(i + 1) == v@.take(i as int).push(v@[i as int]));
        i += 1;
    }
    assert(v@.take(v.len() as int) == v@);
    s
}

/// Unicode whitespace test (`char::is_whitespace`).
pub fn is_whitespace(c: char) -> (b: bool)
    ensures
        b == is_ws(c),
{
    c == ' ' || c == '\t' || c == '\n' || c == '\r' || c == '\u{0B}' || c == '\u{0C}'
        || c == '\u{85}' || c == '\u{A0}' || c == '\u{1680}' || ('\u{2000}' <= c && c
        <= '\u{200A}') || c == '\u{2028}' || c == '\u{2029}' || c == '\u{202F}' || c
        == '\u{205F}' || c == '\u{3000}'
}

proof fn lemma_trim_start_skip(s: Seq<char>, i: int)
    requires
        0 <= i <= s.len(),
        forall|k: int| 0 <= k < i ==> is_ws(#[trigger] s[k]),
    ensures
        trim_start(s) == trim_start(s.skip(i)),
    decreases i,
{
    if i > 0 {
        assert(is_ws(s[0]));
        assert(s.drop_first().skip(i - 1) == s.skip(i));
        assert forall|k: int| 0 <= k < i - 1 implies is_ws(#[trigger] s.drop_first()[k]) by {
            assert(s.drop_first()[k] == s[k + 1]);
        }
        lemma_trim_start_skip(s.drop_first(), i - 1);
    } else {
        assert(s.skip(0) == s);
    }
}

proof fn lemma_trim_end_take(s: Seq<char>, j: int)
    requires
        0 <= j <= s.len(),
        forall|k: int| j <= k < s.len() ==> is_ws(#[trigger] s[k]),
    ensures
        trim_end(s) == trim_end(s.take(j)),
    decreases s.len() - j,
{
    if j < s.len() {
        assert(is_ws(s.last()));
        assert(s.drop_last().take(j) == s.take(j));
        lemma_trim_end_take(s.drop_last(), j);
    } else {
        assert(s.take(j) == s);
    }
}

/// Index bounds `(lo, hi)` of `trim(v)` inside `v`.
pub fn trim_bounds(v: &[char]) -> (r: (usize, usize))
    ensures
        r.0 <= r.1 <= v.len(),
        v@.subrange(r.0 as int, r.1 as int) == trim(v@),
{
    let mut lo: usize = 0;
    while lo < v.len() && is_whitespace(v[lo])
        invariant
            lo <= v.len(),
            forall|k: int| 0 <= k < lo ==> is_ws(#[trigger] v@[k]),
        decreases v.len() - lo,
    {
        lo += 1;
    }
    proof {
        lemma_trim_start_skip(v@, lo as int);
        let t = v@.skip(lo as int);
        assert(!(t.len() > 0 && is_ws(t[0])));
        assert(trim_start(t) == t);
    }
    let mut hi: usize = v.len();
    while hi > lo && is_whitespace(v[hi - 1])
        invariant
            lo <= hi <= v.len(),
            forall|k: int| hi <= k < v.len() ==> is_ws(#[trigger] v@[k]),
        decreases hi,
    {
        hi -= 1;
    }
    proof {
        let t = v@.skip(lo as int);
        lemma_trim_end_take(t, hi - lo);
        let u = t.take(hi - lo);
        assert(u == v@.subrange(lo as int, hi as int));
        assert(!(u.len() > 0 && is_ws(u.last())));
        assert(trim_end(u) == u);
    }
    (lo, hi)
}

/// Copies `v[lo..hi]` into a new string.
pub fn string_from_range(v: &[char], lo: usize, hi: usize) -> (s: String)
    requires
        lo <= hi <= v.len(),
    ensures
        s@ == v@.subrange(lo as int, hi as int),
{
    let mut s = String::new();
    let mut i: usize = lo;
    while i < hi
        invariant
            lo <= i <= hi <= v.len(),
            s@ == v@.subrange(lo as int, i as int),
        decreases hi - i,
    {
        push_char(&mut s, v[i]);
        assert(v@.subrange(lo as int, i + 1) == v@.subrange(lo as int, i as int).push(v@[i as int]));
        i += 1;
    }
    s
}

/// `str::trim`, returned as an owned string.
pub fn trim_string(s: &str) -> (r: String)
    ensures
        r@ == trim(s@),
{
    let v = chars_of(s);
    let (lo, hi) = trim_bounds(&v);
    string_from_range(&v, lo, hi)
}

/// The views of a vector of character vectors.
pub open spec fn char_views(v: Seq<Vec<char>>) -> Seq<Seq<char>> {
    v.map_values(|x: Vec<char>| x@)
}

/// Pieces of `v` between the characters equal to `sep` (`str::split`).
pub fn split_chars(v: &[char], sep: char) -> (r: Vec<Vec<char>>)
    ensures
        char_views(r@) == split_on(v@, sep),
{
    let mut done: Vec<Vec<char>> = Vec::new();
    let mut cur: Vec<char> = Vec::new();
    let mut i: usize = 0;
    assert(v@.take(0) == Seq::<char>::empty());
    while i < v.len()
        invariant
            i <= v.len(),
            char_views(done@).push(cur@) == split_on(v@.take(i as int), sep),
        decreases v.len() - i,
    {
        let c = v[i];
        let ghost prev = v@.take(i as int);
        assert(v@.take(i + 1).drop_last() == prev);
        assert(v@.take(i + 1).last() == c);
        if c == sep {
            let ghost d0 = done@;
            let mut old_cur: Vec<char> = Vec::new();
            std::mem::swap(&mut old_cur, &mut cur);
            done.push(old_cur);
            assert(char_views(done@) == char_views(d0).push(old_cur@));
        } else {
            cur.push(c);
        }
        i += 1;
        assert(char_views(done@).push(cur@) == split_on(v@.take(i as int), sep));
    }
    assert(v@.take(v.len() as int) == v@);
    done.push(cur);
    assert(char_views(done@) == split_on(v@, sep));
    done
}

/// The words of `v` (`str::split_whitespace`).
pub fn split_words(v: &[char]) -> (r: Vec<Vec<char>>)
    ensures
        char_views(r@) == words(v@),
        forall|k: int| 0 <= k < r@.len() ==> r@[k]@.len() > 0,
{
    let mut done: Vec<Vec<char>> = Vec::new();
    let mut cur: Vec<char> = Vec::new();
    let ghost mut raw: Seq<Seq<char>> = Seq::empty();
    let mut i: usize = 0;
    assert(v@.take(0) == Seq::<char>::empty());
    assert(non_empty(raw) == Seq::<Seq<char>>::empty());
    while i < v.len()
        invariant
            i <= v.len(),
            raw.push(cur@) == split_ws_raw(v@.take(i as int)),
            char_views(done@) == non_empty(raw),
            forall|k: int| 0 <= k < done@.len() ==> done@[k]@.len() > 0,
        decreases v.len() - i,
    {
        let c = v[i];
        let ghost prev = v@.take(i as int);
        assert(v@.take(i + 1).drop_last() == prev);
        assert(v@.take(i + 1).last() == c);
        let ghost cur0 = cur@;
        let ghost r0 = raw;
        if is_whitespace(c) {
            let ghost d0 = done@;
            assert(split_ws_raw(v@.take(i + 1)) == r0.push(cur0).push(Seq::<char>::empty()));
            proof {
                raw.lemma_filter_push(cur@, |p: Seq<char>| p.len() > 0);
                raw = raw.push(cur@);
            }
            if cur.len() > 0 {
                let mut old_cur: Vec<char> = Vec::new();
                std::mem::swap(&mut old_cur, &mut cur);
                done.push(old_cur);
                assert(char_views(done@) == char_views(d0).push(old_cur@));
            }
            assert(cur@ == Seq::<char>::empty());
        } else {
            cur.push(c);
            assert(split_ws_raw(v@.take(i + 1)) == r0.push(cur0.push(c)));
        }
        i += 1;
    }
    assert(v@.take(v.len() as int) == v@);
    proof {
        raw.lemma_filter_push(cur@, |p: Seq<char>| p.len() > 0);
    }
    if cur.len() > 0 {
        let ghost d0 = done@;
        done.push(cur);
        assert(char_views(done@) == char_views(d0).push(done@.last()@));
    }
    done
}

/// The words of `s` as owned strings (`str::split_whitespace`).
pub fn words_of(s: &str) -> (r: Vec<String>)
    ensures
        views(r@) == words(s@),
{
    let v = chars_of(s);
    let ws = split_words(&v);
    let mut out: Vec<String> = Vec::new();
    let mut i: usize = 0;
    while i < ws.len()
        invariant
            i <= ws.len(),
            views(out@) == char_views(ws@).take(i as int),
        decreases ws.len() - i,
    {
        let w = string_from_chars(ws[i].as_slice());
        let ghost o0 = out@;
        out.push(w);
        assert(views(out@) == views(o0).push(w@));
        assert(char_views(ws@).take(i + 1) == char_views(ws@).take(i as int).push(ws@[i as int]@));
        i += 1;
    }
    assert(char_views(ws@).take(ws.len() as int) == char_views(ws@));
    out
}

/// `s` with every non-overlapping occurrence of the non-empty `pat`, scanned
/// left to right, replaced by `rep` (`str::replace`).
pub open spec fn replace_all(s: Seq<char>, pat: Seq<char>, rep: Seq<char>) -> Seq<char>
    decreases s.len(),
{
    if pat.len() == 0 || s.len() == 0 {
        s
    } else if s.len() >= pat.len() && s.take(pat.len() as int) == pat {
        rep + replace_all(s.skip(pat.len() as int), pat, rep)
    } else {
        seq![s[0]] + replace_all(s.drop_first(), pat, rep)
    }
}

/// Whether `pat` occurs in `s` at position `i`.
pub fn matches_at(s: &[char], pat: &[char], i: usize) -> (b: bool)
    requires
        i <= s.len(),
    ensures
        b == (i + pat.len() <= s.len() && s@.subrange(i as int, i + pat.len()) == pat@),
{
    if pat.len() > s.len() - i {
        return false;
    }
    let mut k: usize = 0;
    while k < pat.len()
        invariant
            k <= pat.len(),
            i + pat.len() <= s.len(),
            forall|j: int| 0 <= j < k ==> s@[i + j] == pat@[j],
        decreases pat.len() - k,
    {
        if s[i + k] != pat[k] {
            assert(s@.subrange(i as int, i + pat.len())[k as int] != pat@[k as int]);
            return false;
        }
        k += 1;
    }
    assert(s@.subrange(i as int, i + pat.len()) == pat@);
    true
}

/// `str::replace` on character vectors, for a non-empty pattern.
pub fn replace_chars(s: &[char], pat: &[char], rep: &[char]) -> (out: Vec<char>)
    requires
        pat.len() > 0,
    ensures
        out@ == replace_all(s@, pat@, rep@),
{
    let mut out: Vec<char> = Vec::new();
    let mut i: usize = 0;
    assert(s@.skip(0) == s@);
    while i < s.len()
        invariant
            i <= s.len(),
            pat@.len() > 0,
            out@ + replace_all(s@.skip(i as int), pat@, rep@) == replace_all(s@, pat@, rep@),
        decreases s.len() - i,
    {
        let ghost rest = s@.skip(i as int);
        if matches_at(s, pat, i) {
            assert(rest.take(pat@.len() as int) == pat@);
            assert(rest.skip(pat@.len() as int) == s@.skip(i + pat@.len()));
            let mut k: usize = 0;
            let ghost o0 = out@;
            while k < rep.len()
                invariant
                    k <= rep.len(),
                    out@ == o0 + rep@.take(k as int),
                decreases rep.len() - k,
            {
                out.push(rep[k]);
                assert(rep@.take(k + 1) == rep@.take(k as int).push(rep@[k as int]));
                k += 1;
            }
            assert(rep@.take(rep.len() as int) == rep@);
            assert(o0 + rep@ + replace_all(s@.skip(i + pat@.len()), pat@, rep@) == o0 + (rep@ + replace_all(s@.skip(i + pat@.len()), pat@, rep@)));
            i = i + pat.len();
        } else {
            assert(!(rest.len() >= pat@.len() && rest.take(pat@.len() as int) == pat@)) by {
                if rest.len() >= pat@.len() {
                    assert(rest.take(pat@.len() as int) == s@.subrange(i as int, i + pat@.len()));
                }
            }
            assert(rest.drop_first() == s@.skip(i + 1));
            let ghost o0 = out@;
            out.push(s[i]);
            assert(o0.push(s@[i as int]) + replace_all(s@.skip(i + 1), pat@, rep@) == o0 + (seq![s@[i as int]] + replace_all(s@.skip(i + 1), pat@, rep@)));
            i += 1;
        }
    }
    assert(s@.skip(s.len() as int) == Seq::<char>::empty());
    assert(out@ + Seq::<char>::empty() == out@);
    out
}

/// Index of the first occurrence of `pat` in `s` at or after `from`.
pub open spec fn find_from(s: Seq<char>, pat: Seq<char>, from: int) -> Option<int>
    decreases s.len() + 1 - from,
{
    if from < 0 || from + pat.len() > s.len() {
        None
    } else if s.subrange(from, from + pat.len()) == pat {
        Some(from)
    } else {
        find_from(s, pat, from + 1)
    }
}

pub proof fn lemma_find_from_bounds(s: Seq<char>, pat: Seq<char>, from: int)
    ensures
        find_from(s, pat, from) matches Some(i) ==> from <= i && i + pat.len() <= s.len(),
    decreases s.len() + 1 - from,
{
    if from < 0 || from + pat.len() > s.len() {
    } else if s.subrange(from, from + pat.len()) == pat {
    } else {
        lemma_find_from_bounds(s, pat, from + 1);
    }
}


/// First occurrence of `pat` in `s` at or after `from`.
pub fn find_chars(s: &[char], pat: &[char], from: usize) -> (r: Option<usize>)
    requires
        from <= s.len(),
    ensures
        match r {
            Some(i) => Some(i as int) == find_from(s@, pat@, from as int),
            None => find_from(s@, pat@, from as int) is None,
        },
    decreases s.len() + 1 - from,
{
    if pat.len() > s.len() - from {
        return None;
    }
    if matches_at(s, pat, from) {
        Some(from)
    } else {
        if from == s.len() {
            assert(pat@.len() == 0);
            assert(s@.subrange(from as int, from as int) == pat@);
            return None;
        }
        find_chars(s, pat, from + 1)
    }
}


/// Copies `v[lo..hi]` into a new vector.
pub fn slice_to_vec(v: &[char], lo: usize, hi: usize) -> (r: Vec<char>)
    requires
        lo <= hi <= v.len(),
    ensures
        r@ == v@.subrange(lo as int, hi as int),
{
    let mut r: Vec<char> = Vec::new();
    let mut i: usize = lo;
    while i < hi
        invariant
            lo <= i <= hi <= v.len(),
            r@ == v@.subrange(lo as int, i as int),
        decreases hi - i,
    {
        r.push(v[i]);
        assert(v@.subrange(lo as int, i + 1) == v@.subrange(lo as int, i as int).push(v@[i as int]));
        i += 1;
    }
    r
}


/// Text equality of two string slices.
pub fn same_text(a: &str, b: &str) -> (eq: bool)
    ensures
        eq == (a@ == b@),
{
    let x = chars_of(a);
    let y = chars_of(b);
    if x.len() != y.len() {
        return false;
    }
    let mut i: usize = 0;
    while i < x.len()
        invariant
            i <= x.len(),
            x.len() == y.len(),
            x@ == a@,
            y@ == b@,
            forall|k: int| 0 <= k < i ==> x@[k] == y@[k],
        decreases x.len() - i,
    {
        if x[i] != y[i] {
            return false;
        }
        i += 1;
    }
    assert(x@ == y@);
    true
}

/// Every position `positions_outside` keeps is below `n`, holds a text not
/// in `excluded`, and the positions increase.
pub proof fn lemma_positions_outside(excluded: Seq<Seq<char>>, items: Seq<Seq<char>>, n: int)
    requires
        0 <= n <= items.len(),
    ensures
        forall|k: int|
            0 <= k < positions_outside(excluded, items, n).len() ==> {
                let p = #[trigger] positions_outside(excluded, items, n)[k];
                0 <= p < n && !excluded.contains(items[p])
            },
        forall|a: int, b: int|
            0 <= a < b < positions_outside(excluded, items, n).len() ==> positions_outside(excluded, items, n)[a]
                < positions_outside(excluded, items, n)[b],
    decreases n,
{
    if n > 0 {
        lemma_positions_outside(excluded, items, n - 1);
        let r = positions_outside(excluded, items, n - 1);
        let s = positions_outside(excluded, items, n);
        if !excluded.contains(items[n - 1]) {
            assert(s == r.push(n - 1));
            assert forall|k: int| 0 <= k < s.len() implies {
                let p = #[trigger] s[k];
                0 <= p < n && !excluded.contains(items[p])
            } by {
                if k < r.len() {
                    assert(s[k] == r[k]);
                }
            }
            assert forall|a: int, b: int| 0 <= a < b < s.len() implies s[a] < s[b] by {
                assert(s[a] == r[a]);
                if b < r.len() {
                    assert(s[b] == r[b]);
                }
            }
        }
    }
}

/// Whether the text `s` is one of `list`.
pub fn contains_text(list: &[String], s: &str) -> (b: bool)
    ensures
        b == views(list@).contains(s@),
{
    let mut i: usize = 0;
    while i < list.len()
        invariant
            i <= list.len(),
            forall|k: int| 0 <= k < i ==> list@[k]@ != s@,
        decreases list.len() - i,
    {
        if same_text(list[i].as_str(), s) {
            assert(views(list@)[i as int] == s@);
            return true;
        }
        i += 1;
    }
    assert forall|k: int| 0 <= k < views(list@).len() implies views(list@)[k] != s@ by {
        assert(views(list@)[k] == list@[k]@);
    }
    false
}

/// The positions of `items`, in increasing order, whose text is not one of
/// `excluded`.
pub fn positions_not_in(excluded: &[String], items: &[String]) -> (r: Vec<usize>)
    ensures
        r@.map_values(|j: usize| j as int) == positions_outside(views(excluded@), views(items@), items@.len() as int),
        forall|k: int|
            0 <= k < r@.len() ==> #[trigger] r@[k] < items@.len() && !views(excluded@).contains(
                items@[r@[k] as int]@,
            ),
        forall|a: int, b: int| 0 <= a < b < r@.len() ==> r@[a] < r@[b],
{
    let mut r: Vec<usize> = Vec::new();
    let mut j: usize = 0;
    while j < items.len()
        invariant
            j <= items.len(),
            r@.map_values(|j: usize| j as int) == positions_outside(views(excluded@), views(items@), j as int),
        decreases items.len() - j,
    {
        let inside = contains_text(excluded, items[j].as_str());
        assert(views(items@)[j as int] == items@[j as int]@);
        if !inside {
            r.push(j);
        }
        j += 1;
    }
    proof {
        let n = items@.len() as int;
        lemma_positions_outside(views(excluded@), views(items@), n);
        let s = positions_outside(views(excluded@), views(items@), n);
        assert forall|k: int| 0 <= k < r@.len() implies #[trigger] r@[k] < items@.len()
            && !views(excluded@).contains(items@[r@[k] as int]@) by {
            assert(r@.map_values(|j: usize| j as int)[k] == s[k]);
            assert(views(items@)[s[k]] == items@[s[k]]@);
        }
        assert forall|a: int, b: int| 0 <= a < b < r@.len() implies r@[a] < r@[b] by {
            assert(r@.map_values(|j: usize| j as int)[a] == s[a]);
            assert(r@.map_values(|j: usize| j as int)[b] == s[b]);
        }
    }
    r
}

} // verus!
