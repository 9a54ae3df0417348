//! `{{variable}}` substitution in prompt templates.
use vstd::prelude::*;

use crate::text::{chars_of, replace_all, replace_chars, string_from_chars};

verus! {

/// The placeholder `{{key}}` for variable `key`.
pub open spec fn placeholder(key: Seq<char>) -> Seq<char> {
    seq!['{', '{'] + key + seq!['}', '}']
}

/// `template` after substituting each `(key, value)` of `vars` in turn: every
/// `{{key}}` of the text so far is replaced by `value`.
pub open spec fn render_spec(template: Seq<char>, vars: Seq<(Seq<char>, Seq<char>)>) -> Seq<char>
    decreases vars.len(),
{
    if vars.len() == 0 {
        template
    } else {
        replace_all(
            render_spec(template, vars.drop_last()),
            placeholder(vars.last().0),
            vars.last().1,
        )
    }
}

/// The views of a list of `(key, value)` string pairs.
pub open spec fn pair_views(vars: Seq<(&str, &str)>) -> Seq<(Seq<char>, Seq<char>)> {
    vars.map_values(|p: (&str, &str)| (p.0@, p.1@))
}

fn placeholder_chars(key: &str) -> (v: Vec<char>)
    ensures
        v@ == placeholder(key@),
{
    let k = chars_of(key);
    let mut v: Vec<char> = Vec::new();
    v.push('{');
    v.push('{');
    let mut i: usize = 0;
    while i < k.len()
        invariant
            i <= k.len(),
            v@ == seq!['{', '{'] + k@.take(i as int),
        decreases k.len() - i,
    {
        v.push(k[i]);
        assert(k@.take(i + 1) == k@.take(i as int).push(k@[i as int]));
        i += 1;
    }
    assert(k@.take(k.len() as int) == k@);
    v.push('}');
    v.push('}');
    v
}

/// Replace `{{key}}` with `value` for each `(key, value)` pair, in order.
/// Placeholders without a matching pair are left as they are.
pub fn render_prompt(template: &str, vars: &[(&str, &str)]) -> (out: String)
    ensures
        out@ == render_spec(template@, pair_views(vars@)),
{
    let mut cur = chars_of(template);
    let mut i: usize = 0;
    assert(pair_views(vars@).take(0) == Seq::<(Seq<char>, Seq<char>)>::empty());
    while i < vars.len()
        invariant
            i <= vars@.len(),
            cur@ == render_spec(template@, pair_views(vars@).take(i as int)),
        decreases vars@.len() - i,
    {
        let (key, value) = vars[i];
        let pat = placeholder_chars(key);
        let rep = chars_of(value);
        let ghost pv = pair_views(vars@);
        assert(pv.take(i + 1).drop_last() == pv.take(i as int));
        assert(pv.take(i + 1).last() == (key@, value@));
        cur = replace_chars(cur.as_slice(), pat.as_slice(), rep.as_slice());
        i += 1;
    }
    assert(pair_views(vars@).take(vars@.len() as int) == pair_views(vars@));
    string_from_chars(cur.as_slice())
}

/// `pat` occurs nowhere in `s`.
pub open spec fn absent(s: Seq<char>, pat: Seq<char>) -> bool {
    forall|i: int| 0 <= i && i + pat.len() <= s.len() ==> #[trigger] s.subrange(i, i + pat.len()) != pat
}

proof fn lemma_replace_absent(s: Seq<char>, pat: Seq<char>, rep: Seq<char>)
    requires
        absent(s, pat),
    ensures
        replace_all(s, pat, rep) == s,
    decreases s.len(),
{
    if pat.len() > 0 && s.len() > 0 {
        if s.len() >= pat.len() {
            let z: int = 0;
            assert(s.subrange(z, z + pat.len()) != pat);
            assert(s.take(pat.len() as int) == s.subrange(z, z + pat.len()));
        }
        let d = s.drop_first();
        assert forall|i: int| 0 <= i && i + pat.len() <= d.len() implies #[trigger] d.subrange(i, i + pat.len())
            != pat by {
            assert(d.subrange(i, i + pat.len()) == s.subrange(i + 1, i + 1 + pat.len()));
        }
        lemma_replace_absent(d, pat, rep);
        assert(seq![s[0]] + d == s);
    }
}

/// Rendering leaves a template unchanged when none of the variables'
/// placeholders occurs in it: placeholders without a matching entry, and
/// text without placeholders, pass through as they are.
pub proof fn lemma_render_without_placeholders(template: Seq<char>, vars: Seq<(Seq<char>, Seq<char>)>)
    requires
        forall|k: int| 0 <= k < vars.len() ==> absent(template, placeholder(#[trigger] vars[k].0)),
    ensures
        render_spec(template, vars) == template,
    decreases vars.len(),
{
    if vars.len() > 0 {
        let d = vars.drop_last();
        assert forall|k: int| 0 <= k < d.len() implies absent(template, placeholder(#[trigger] d[k].0)) by {
            assert(d[k] == vars[k]);
        }
        lemma_render_without_placeholders(template, d);
        assert(absent(template, placeholder(vars[vars.len() - 1].0)));
        lemma_replace_absent(template, placeholder(vars.last().0), vars.last().1);
    }
}

} // verus!
