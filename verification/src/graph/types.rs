//! Value encodings shared by the graph backends: importance by node type,
//! comma-separated lists, SQL `LIKE` escaping and UUID validation.
use vstd::prelude::*;
use vstd::string::StringSliceAdditionalSpecFns;

use crate::text::{
    char_views, chars_of, join, non_empty, push_char, push_str, split_chars, split_on, string_from_range,
    same_text, trim, trim_bounds, views,
};

verus! {

/// The node columns in the order rows are read back.
pub const NODE_COLUMNS: &'static str = "id, type, title, tags, projects, agents, created, updated, body, importance, access_count, accessed_at";

/// Importance, in hundredths, of a node created without an explicit one.
pub const DEFAULT_IMPORTANCE_HUNDREDTHS: u32 = 50;

/// Importance, in hundredths, of a new node of type `t`: decisions rank
/// highest, sessions lowest, unknown types get the default.
pub open spec fn type_importance(t: Seq<char>) -> int {
    if t == "decision"@ {
        90
    } else if t == "resolution"@ || t == "psychographic"@ {
        80
    } else if t == "instinct"@ || t == "concept"@ || t == "project"@ {
        70
    } else if t == "pattern"@ {
        50
    } else if t == "error"@ {
        40
    } else if t == "session"@ {
        5
    } else {
        DEFAULT_IMPORTANCE_HUNDREDTHS as int
    }
}

/// Importance, in hundredths, of a new node of type `node_type`.
pub fn importance_hundredths_for_type(node_type: &str) -> (h: u32)
    ensures
        h == type_importance(node_type@),
        h <= 100,
{
    if same_text(node_type, "decision") {
        90
    } else if same_text(node_type, "resolution") || same_text(node_type, "psychographic") {
        80
    } else if same_text(node_type, "instinct") || same_text(node_type, "concept") || same_text(
        node_type,
        "project",
    ) {
        70
    } else if same_text(node_type, "pattern") {
        50
    } else if same_text(node_type, "error") {
        40
    } else if same_text(node_type, "session") {
        5
    } else {
        DEFAULT_IMPORTANCE_HUNDREDTHS
    }
}

/// The escape of one character inside a `LIKE` pattern.
pub open spec fn escape_like_char(c: char) -> Seq<char> {
    if c == '%' || c == '_' || c == '\\' {
        seq!['\\', c]
    } else {
        seq![c]
    }
}

/// `s` with every `%`, `_` and `\` preceded by a backslash.
pub open spec fn escape_like_spec(s: Seq<char>) -> Seq<char>
    decreases s.len(),
{
    if s.len() == 0 {
        Seq::empty()
    } else {
        escape_like_spec(s.drop_last()) + escape_like_char(s.last())
    }
}

/// The entries of a comma-separated list: pieces between commas, trimmed,
/// empty ones dropped.
pub open spec fn csv_fields(s: Seq<char>) -> Seq<Seq<char>> {
    non_empty(split_on(s, ',').map_values(|p: Seq<char>| trim(p)))
}

/// Escape SQL `LIKE` wildcards (`%`, `_`, `\`) in a bound value.
pub fn escape_like(value: &str) -> (out: String)
    ensures
        out@ == escape_like_spec(value@),
{
    let v = chars_of(value);
    let mut out = String::new();
    let mut i: usize = 0;
    assert(v@.take(0) == Seq::<char>::empty());
    while i < v.len()
        invariant
            i <= v.len(),
            v@ == value@,
            out@ == escape_like_spec(v@.take(i as int)),
        decreases v.len() - i,
    {
        let ch = v[i];
        assert(v@.take(i + 1).drop_last() == v@.take(i as int));
        if ch == '%' || ch == '_' || ch == '\\' {
            push_char(&mut out, '\\');
            push_char(&mut out, ch);
        } else {
            push_char(&mut out, ch);
        }
        i += 1;
    }
    assert(v@.take(v.len() as int) == v@);
    out
}

/// Join a list of values with commas.
pub fn join_csv(v: &[String]) -> (out: String)
    ensures
        out@ == join(views(v@), ","@),
{
    let mut out = String::new();
    let mut i: usize = 0;
    proof {
        reveal_strlit(",");
    }
    assert(views(v@).take(0) == Seq::<Seq<char>>::empty());
    while i < v.len()
        invariant
            i <= v.len(),
            out@ == join(views(v@).take(i as int), ","@),
            ","@ == seq![','],
        decreases v.len() - i,
    {
        let ghost t = views(v@).take(i + 1);
        assert(t.drop_last() == views(v@).take(i as int));
        assert(t.last() == v@[i as int]@);
        if i > 0 {
            push_char(&mut out, ',');
            push_str(&mut out, v[i].as_str());
            assert(out@ == join(t.drop_last(), ","@) + ","@ + t.last());
        } else {
            push_str(&mut out, v[i].as_str());
            assert(t == seq![v@[0]@]);
        }
        i += 1;
    }
    assert(views(v@).take(v.len() as int) == views(v@));
    out
}

/// Split a comma-separated list into trimmed, non-empty entries.
pub fn split_csv(s: &str) -> (out: Vec<String>)
    ensures
        views(out@) == csv_fields(s@),
{
    let v = chars_of(s);
    let pieces = split_chars(&v, ',');
    let ghost trimmed = char_views(pieces@).map_values(|p: Seq<char>| trim(p));
    let mut out: Vec<String> = Vec::new();
    let mut i: usize = 0;
    assert(trimmed.take(0) == Seq::<Seq<char>>::empty());
    assert(non_empty(Seq::<Seq<char>>::empty()) == Seq::<Seq<char>>::empty());
    while i < pieces.len()
        invariant
            i <= pieces.len(),
            trimmed == char_views(pieces@).map_values(|p: Seq<char>| trim(p)),
            views(out@) == non_empty(trimmed.take(i as int)),
        decreases pieces.len() - i,
    {
        let (lo, hi) = trim_bounds(pieces[i].as_slice());
        assert(trimmed.take(i + 1) == trimmed.take(i as int).push(trimmed[i as int]));
        assert(trimmed[i as int] == trim(pieces@[i as int]@));
        proof {
            trimmed.take(i as int).lemma_filter_push(trimmed[i as int], |p: Seq<char>| p.len() > 0);
        }
        if lo < hi {
            let f = string_from_range(pieces[i].as_slice(), lo, hi);
            let ghost o0 = out@;
            out.push(f);
            assert(views(out@) == views(o0).push(f@));
        }
        i += 1;
    }
    assert(trimmed.take(pieces.len() as int) == trimmed);
    out
}

/// The hexadecimal digits `0-9a-fA-F` (`u8::is_ascii_hexdigit`).
pub open spec fn is_hex_byte(c: u8) -> bool {
    (48 <= c <= 57) || (97 <= c <= 102) || (65 <= c <= 70)
}

/// The positions of the four dashes in a UUID.
pub open spec fn is_dash_pos(i: int) -> bool {
    i == 8 || i == 13 || i == 18 || i == 23
}

/// A UUID v4 in its textual form `xxxxxxxx-xxxx-4xxx-[89abAB]xxx-xxxxxxxxxxxx`.
pub open spec fn uuid_v4_bytes(b: Seq<u8>) -> bool {
    &&& b.len() == 36
    &&& b[8] == 45 && b[13] == 45 && b[18] == 45 && b[23] == 45
    &&& b[14] == 52
    &&& (b[19] == 56 || b[19] == 57 || b[19] == 97 || b[19] == 98 || b[19] == 65 || b[19] == 66)
    &&& forall|i: int| 0 <= i < 36 && !is_dash_pos(i) ==> is_hex_byte(#[trigger] b[i])
}

/// Validate a UUID v4 string (strict format:
/// `xxxxxxxx-xxxx-4xxx-[89ab]xxx-xxxxxxxxxxxx`, hex digits of either case).
pub fn validate_uuid(id: &str) -> (ok: bool)
    ensures
        ok == uuid_v4_bytes(id.spec_bytes()),
{
    let b = id.as_bytes();
    if b.len() != 36 {
        return false;
    }
    if !(b[8] == 45u8 && b[13] == 45u8 && b[18] == 45u8 && b[23] == 45u8 && b[14] == 52u8) {
        return false;
    }
    let v = b[19];
    if !(v == 56u8 || v == 57u8 || v == 97u8 || v == 98u8 || v == 65u8 || v == 66u8) {
        return false;
    }
    let mut i: usize = 0;
    while i < 36
        invariant
            i <= 36,
            b@.len() == 36,
            b@ == id.spec_bytes(),
            forall|k: int| 0 <= k < i && !is_dash_pos(k) ==> is_hex_byte(#[trigger] b@[k]),
        decreases 36 - i,
    {
        if !(i == 8 || i == 13 || i == 18 || i == 23) {
            let c = b[i];
            if !((48u8 <= c && c <= 57u8) || (97u8 <= c && c <= 102u8) || (65u8 <= c && c <= 70u8)) {
                assert(!is_dash_pos(i as int) && !is_hex_byte(b@[i as int]));
                return false;
            }
        }
        i += 1;
    }
    true
}


// ── CSV round trip ────────────────────────────────────

proof fn lemma_split_on_nonempty(s: Seq<char>, sep: char)
    ensures
        split_on(s, sep).len() >= 1,
    decreases s.len(),
{
    if s.len() > 0 {
        lemma_split_on_nonempty(s.drop_last(), sep);
    }
}

proof fn lemma_split_on_extend(x: Seq<char>, y: Seq<char>, sep: char)
    requires
        !y.contains(sep),
    ensures
        split_on(x + y, sep) == split_on(x, sep).update(
            split_on(x, sep).len() - 1,
            split_on(x, sep).last() + y,
        ),
    decreases y.len(),
{
    lemma_split_on_nonempty(x, sep);
    if y.len() == 0 {
        assert(x + y == x);
        assert(split_on(x, sep).last() + y == split_on(x, sep).last());
        assert(split_on(x, sep).update(split_on(x, sep).len() - 1, split_on(x, sep).last()) =~= split_on(
            x,
            sep,
        ));
    } else {
        let yd = y.drop_last();
        assert(!yd.contains(sep)) by {
            if yd.contains(sep) {
                let k = choose|k: int| 0 <= k < yd.len() && yd[k] == sep;
                assert(y[k] == sep);
            }
        }
        lemma_split_on_extend(x, yd, sep);
        assert((x + y).drop_last() == x + yd);
        assert((x + y).last() == y.last());
        assert(y.last() != sep) by {
            assert(y[y.len() - 1] == y.last());
        }
        let g = split_on(x, sep);
        let f = split_on(x + yd, sep);
        assert(split_on(x + y, sep) == f.update(f.len() - 1, f.last().push(y.last())));
        assert(f.len() == g.len());
        assert(f.last() == g.last() + yd);
        assert((g.last() + yd).push(y.last()) =~= g.last() + y);
        assert(f.update(f.len() - 1, g.last() + y) =~= g.update(g.len() - 1, g.last() + y));
    }
}

proof fn lemma_split_join(list: Seq<Seq<char>>, sep: char)
    requires
        list.len() >= 1,
        forall|i: int| 0 <= i < list.len() ==> !(#[trigger] list[i]).contains(sep),
    ensures
        split_on(join(list, seq![sep]), sep) == list,
    decreases list.len(),
{
    if list.len() == 1 {
        assert(join(list, seq![sep]) == list[0]);
        lemma_split_on_extend(Seq::empty(), list[0], sep);
        assert(Seq::<char>::empty() + list[0] == list[0]);
        assert(split_on(Seq::<char>::empty(), sep) == seq![Seq::<char>::empty()]);
        assert(split_on(list[0], sep) =~= list);
    } else {
        let d = list.drop_last();
        assert forall|i: int| 0 <= i < d.len() implies !(#[trigger] d[i]).contains(sep) by {
            assert(d[i] == list[i]);
        }
        lemma_split_join(d, sep);
        let jd = join(d, seq![sep]);
        assert(list.last() == list[list.len() - 1]);
        assert(join(list, seq![sep]) == jd + seq![sep] + list.last());
        lemma_split_on_extend(jd + seq![sep], list.last(), sep);
        assert((jd + seq![sep]).drop_last() == jd);
        assert(split_on(jd + seq![sep], sep) == d.push(Seq::<char>::empty()));
        assert(Seq::<char>::empty() + list.last() == list.last());
        assert(split_on(join(list, seq![sep]), sep) =~= list);
    }
}

proof fn lemma_filter_all(list: Seq<Seq<char>>)
    requires
        forall|i: int| 0 <= i < list.len() ==> (#[trigger] list[i]).len() > 0,
    ensures
        non_empty(list) == list,
    decreases list.len(),
{
    reveal(Seq::filter);
    if list.len() > 0 {
        let d = list.drop_last();
        assert forall|i: int| 0 <= i < d.len() implies (#[trigger] d[i]).len() > 0 by {
            assert(d[i] == list[i]);
        }
        lemma_filter_all(d);
        assert(list.last() == list[list.len() - 1]);
        assert(d.push(list.last()) =~= list);
    }
}

/// Reading back a joined list gives the list: `split_csv(join_csv(v)) == v`
/// when every entry is non-empty, has no surrounding whitespace and holds no
/// comma.
pub proof fn lemma_csv_round_trip(list: Seq<Seq<char>>)
    requires
        forall|i: int|
            0 <= i < list.len() ==> {
                let e = #[trigger] list[i];
                &&& e.len() > 0
                &&& trim(e) == e
                &&& !e.contains(',')
            },
    ensures
        csv_fields(join(list, ","@)) == list,
{
    reveal_strlit(",");
    assert(","@ == seq![',']);
    if list.len() == 0 {
        assert(join(list, ","@) == Seq::<char>::empty());
        let m = split_on(Seq::<char>::empty(), ',').map_values(|p: Seq<char>| trim(p));
        assert(m == seq![trim(Seq::<char>::empty())]);
        reveal_with_fuel(Seq::filter, 2);
        assert(trim(Seq::<char>::empty()) == Seq::<char>::empty());
        assert(m.drop_last() == Seq::<Seq<char>>::empty());
        assert(non_empty(m) =~= list);
    } else {
        lemma_split_join(list, ',');
        let m = list.map_values(|p: Seq<char>| trim(p));
        assert(m =~= list);
        lemma_filter_all(list);
    }
}


// ── LIKE escaping ─────────────────────────────────────

/// The text a `LIKE ... ESCAPE '\'` pattern matches when it holds no
/// wildcard: each `\x` stands for `x`; `None` when an unescaped `%` or `_`
/// (or a trailing lone backslash) makes it match more than one text.
pub open spec fn like_literal(p: Seq<char>) -> Option<Seq<char>>
    decreases p.len(),
{
    if p.len() == 0 {
        Some(Seq::empty())
    } else if p[0] == '\\' {
        if p.len() >= 2 {
            match like_literal(p.skip(2)) {
                Some(r) => Some(seq![p[1]] + r),
                None => None,
            }
        } else {
            None
        }
    } else if p[0] == '%' || p[0] == '_' {
        None
    } else {
        match like_literal(p.drop_first()) {
            Some(r) => Some(seq![p[0]] + r),
            None => None,
        }
    }
}

proof fn lemma_escape_front(s: Seq<char>)
    requires
        s.len() > 0,
    ensures
        escape_like_spec(s) == escape_like_char(s[0]) + escape_like_spec(s.drop_first()),
    decreases s.len(),
{
    if s.len() == 1 {
        assert(s.drop_last() =~= Seq::<char>::empty());
        assert(s.drop_first() =~= Seq::<char>::empty());
        assert(escape_like_spec(s.drop_last()) == Seq::<char>::empty());
        assert(escape_like_spec(s.drop_first()) == Seq::<char>::empty());
        assert(s.last() == s[0]);
        assert(escape_like_spec(s) == Seq::<char>::empty() + escape_like_char(s[0]));
        assert(Seq::<char>::empty() + escape_like_char(s[0]) =~= escape_like_char(s[0]));
        assert(escape_like_char(s[0]) + Seq::<char>::empty() =~= escape_like_char(s[0]));
    } else {
        let d = s.drop_last();
        lemma_escape_front(d);
        assert(d[0] == s[0]);
        assert(d.drop_first() == s.drop_first().drop_last());
        assert(s.drop_first().last() == s.last());
        assert(escape_like_spec(s.drop_first()) == escape_like_spec(s.drop_first().drop_last())
            + escape_like_char(s.last()));
        assert(escape_like_spec(s) =~= escape_like_char(s[0]) + escape_like_spec(s.drop_first()));
    }
}

/// An escaped value, used as a `LIKE` pattern with `ESCAPE '\'`, matches
/// exactly the value itself: no wildcard survives escaping.
pub proof fn lemma_escape_like_literal(v: Seq<char>)
    ensures
        like_literal(escape_like_spec(v)) == Some(v),
    decreases v.len(),
{
    if v.len() > 0 {
        lemma_escape_front(v);
        lemma_escape_like_literal(v.drop_first());
        let c = v[0];
        let e = escape_like_spec(v);
        let rest = escape_like_spec(v.drop_first());
        if c == '%' || c == '_' || c == '\\' {
            assert(e == seq!['\\', c] + rest);
            assert(e[0] == '\\' && e[1] == c);
            assert(e.skip(2) =~= rest);
        } else {
            assert(e == seq![c] + rest);
            assert(e[0] == c);
            assert(e.drop_first() =~= rest);
        }
        assert(seq![c] + v.drop_first() =~= v);
    } else {
        assert(escape_like_spec(v) == Seq::<char>::empty());
    }
}

} // verus!
