//! CJK-aware query segmentation (every CJK character becomes a token of its
//! own, Latin and digit runs stay intact) and the substring search that
//! finds short CJK terms a trigram index misses.
use vstd::prelude::*;

use crate::graph::pg::like_pattern;
use crate::graph::search::{push_where, where_clause, ParamModel, SqlParam, SqlQuery};
use crate::graph::types::{escape_like, NODE_COLUMNS};
use crate::text::{chars_of, push_char, push_str, views, words, words_of};

verus! {

/// CJK ideographs, kana, Hangul syllables and fullwidth forms.
pub open spec fn is_cjk(ch: char) -> bool {
    ||| ('\u{3040}' <= ch && ch <= '\u{30FF}')
    ||| ('\u{3400}' <= ch && ch <= '\u{4DBF}')
    ||| ('\u{4E00}' <= ch && ch <= '\u{9FFF}')
    ||| ('\u{F900}' <= ch && ch <= '\u{FAFF}')
    ||| ('\u{AC00}' <= ch && ch <= '\u{D7AF}')
    ||| ('\u{FF00}' <= ch && ch <= '\u{FFEF}')
}

/// `text` with a space inserted after every CJK character.
pub open spec fn segment_spec(text: Seq<char>) -> Seq<char>
    decreases text.len(),
{
    if text.len() == 0 {
        Seq::empty()
    } else {
        let c = text.last();
        segment_spec(text.drop_last()) + (if is_cjk(c) {
            seq![c, ' ']
        } else {
            seq![c]
        })
    }
}

/// Returns `true` for CJK ideographs, kana, Hangul, and fullwidth forms.
pub fn is_cjk_char(ch: char) -> (b: bool)
    ensures
        b == is_cjk(ch),
{
    ('\u{3040}' <= ch && ch <= '\u{30FF}') || ('\u{3400}' <= ch && ch <= '\u{4DBF}') || ('\u{4E00}'
        <= ch && ch <= '\u{9FFF}') || ('\u{F900}' <= ch && ch <= '\u{FAFF}') || ('\u{AC00}' <= ch
        && ch <= '\u{D7AF}') || ('\u{FF00}' <= ch && ch <= '\u{FFEF}')
}

/// Insert a space after every CJK character so whitespace tokenization treats
/// each CJK character as a separate token. Latin/digit/punctuation runs and
/// existing whitespace are left untouched.
pub fn segment_cjk(text: &str) -> (out: String)
    ensures
        out@ == segment_spec(text@),
{
    let v = chars_of(text);
    let mut out = String::new();
    let mut i: usize = 0;
    assert(v@.take(0) == Seq::<char>::empty());
    while i < v.len()
        invariant
            i <= v.len(),
            out@ == segment_spec(v@.take(i as int)),
        decreases v.len() - i,
    {
        let ch = v[i];
        assert(v@.take(i + 1).drop_last() == v@.take(i as int));
        push_char(&mut out, ch);
        if is_cjk_char(ch) {
            push_char(&mut out, ' ');
        }
        i += 1;
    }
    assert(v@.take(v.len() as int) == v@);
    out
}

// ── Substring search ──────────────────────────────────

/// What `str::to_lowercase` gives for a text: its Unicode lowercase mapping.
pub uninterp spec fn unicode_lowercase(s: Seq<char>) -> Seq<char>;

/// `str::to_lowercase`: std's Unicode lowercase mapping of `s`. The result is
/// the named mapping of the text; what the mapping does to each character is
/// std's Unicode tables and is not written out here.
#[verifier::external_body]
fn to_lowercase(s: &str) -> (r: String)
    ensures
        r@ == unicode_lowercase(s@),
{
    s.to_lowercase()
}

/// The search terms of the words `ws`: each lowercased, empty ones dropped.
pub open spec fn lowered_terms(ws: Seq<Seq<char>>) -> Seq<Seq<char>>
    decreases ws.len(),
{
    if ws.len() == 0 {
        Seq::empty()
    } else {
        let r = lowered_terms(ws.drop_last());
        let t = unicode_lowercase(ws.last());
        if t.len() > 0 {
            r.push(t)
        } else {
            r
        }
    }
}

/// One term must occur in the title, the body or the tags (lowercased),
/// each bound to the term's escaped substring pattern.
pub const CJK_TERM_CONDITION: &'static str = "(lower(title) LIKE ? ESCAPE '\\' OR lower(body) LIKE ? ESCAPE '\\' OR lower(tags) LIKE ? ESCAPE '\\')";

/// The substring search statement over `n` terms, all of which must occur:
/// most important first, the limit bound last.
pub open spec fn cjk_search_sql_spec(n: nat) -> Seq<char> {
    "SELECT "@ + NODE_COLUMNS@ + " FROM nodes "@ + where_clause(Seq::new(n, |i: int| CJK_TERM_CONDITION@))
        + " ORDER BY importance DESC LIMIT ?"@
}

/// The bound values of the term conditions: each term's pattern, three
/// times (title, body, tags), term after term.
pub open spec fn cjk_term_params(terms: Seq<Seq<char>>) -> Seq<ParamModel>
    decreases terms.len(),
{
    if terms.len() == 0 {
        Seq::empty()
    } else {
        let p = ParamModel::Text(like_pattern(terms.last()));
        cjk_term_params(terms.drop_last()) + seq![p, p, p]
    }
}

/// The escaped substring pattern of a term.
fn like_pattern_of(term: &str) -> (p: String)
    ensures
        p@ == like_pattern(term@),
{
    let mut p = String::new();
    push_char(&mut p, '%');
    let e = escape_like(term);
    push_str(&mut p, e.as_str());
    push_char(&mut p, '%');
    p
}

/// The substring search for `query`: one condition per lowercased word, all
/// required, `limit` rows at most. `None` when the query has no word, in
/// which case there is nothing to search and no result.
pub fn cjk_search_sql(query: &str, limit: usize) -> (q: Option<SqlQuery>)
    ensures
        q is None <==> lowered_terms(words(query@)).len() == 0,
        q matches Some(q) ==> {
            &&& q.sql@ == cjk_search_sql_spec(lowered_terms(words(query@)).len())
            &&& q.params@.map_values(|p: SqlParam| p@) == cjk_term_params(lowered_terms(words(query@))).push(
                ParamModel::Int((limit as i64) as int),
            )
        },
{
    let ws = words_of(query);
    let ghost wv = views(ws@);
    let mut terms: Vec<String> = Vec::new();
    let mut i: usize = 0;
    assert(wv.take(0) == Seq::<Seq<char>>::empty());
    while i < ws.len()
        invariant
            i <= ws.len(),
            wv == views(ws@),
            wv == words(query@),
            views(terms@) == lowered_terms(wv.take(i as int)),
        decreases ws.len() - i,
    {
        let t = to_lowercase(ws[i].as_str());
        assert(wv.take(i + 1).drop_last() == wv.take(i as int));
        assert(wv.take(i + 1).last() == ws@[i as int]@);
        let ghost t0 = terms@;
        if !t.as_str().is_empty() {
            terms.push(t);
            assert(views(terms@) == views(t0).push(terms@.last()@));
        }
        i += 1;
    }
    assert(wv.take(ws.len() as int) == wv);
    let n = terms.len();
    if n == 0 {
        return None;
    }
    let ghost tv = views(terms@);
    let mut conds: Vec<&'static str> = Vec::new();
    let mut params: Vec<SqlParam> = Vec::new();
    let mut k: usize = 0;
    assert(tv.take(0) == Seq::<Seq<char>>::empty());
    while k < n
        invariant
            k <= n,
            n == terms.len(),
            tv == views(terms@),
            conds@.len() == k,
            forall|i: int| 0 <= i < k ==> conds@[i] == CJK_TERM_CONDITION,
            params@.map_values(|p: SqlParam| p@) == cjk_term_params(tv.take(k as int)),
        decreases n - k,
    {
        conds.push(CJK_TERM_CONDITION);
        let ghost p0 = params@;
        params.push(SqlParam::Text(like_pattern_of(terms[k].as_str())));
        params.push(SqlParam::Text(like_pattern_of(terms[k].as_str())));
        params.push(SqlParam::Text(like_pattern_of(terms[k].as_str())));
        assert(tv.take(k + 1).drop_last() == tv.take(k as int));
        assert(tv.take(k + 1).last() == terms@[k as int]@);
        let ghost pm = ParamModel::Text(like_pattern(terms@[k as int]@));
        assert(params@.map_values(|p: SqlParam| p@) == p0.map_values(|p: SqlParam| p@) + seq![pm, pm, pm]);
        k += 1;
    }
    assert(tv.take(n as int) == tv);
    assert(conds@.map_values(|c: &str| c@) =~= Seq::new(n as nat, |i: int| CJK_TERM_CONDITION@));
    let ghost p1 = params@;
    params.push(SqlParam::Int(limit as i64));
    assert(params@.map_values(|p: SqlParam| p@) == p1.map_values(|p: SqlParam| p@).push(
        ParamModel::Int((limit as i64) as int),
    ));
    let mut sql = String::new();
    push_str(&mut sql, "SELECT ");
    push_str(&mut sql, NODE_COLUMNS);
    push_str(&mut sql, " FROM nodes ");
    push_where(&mut sql, &conds);
    push_str(&mut sql, " ORDER BY importance DESC LIMIT ?");
    Some(SqlQuery { sql, params })
}

} // verus!
