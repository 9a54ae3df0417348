//! Prompt templates with variable substitution and few-shot examples.
use vstd::prelude::*;

use crate::llm::prompt::{pair_views, render_prompt, render_spec};
use crate::text::{chars_of, dedup, find_from, lemma_find_from_bounds, push_char, push_str, string_from_range, views};

verus! {

/// A prompt template with optional few-shot examples.
#[derive(Debug, Clone)]
pub struct PromptTemplate {
    /// Template body containing `{{variable}}` placeholders.
    pub template: String,
    /// Few-shot example strings rendered before the template body.
    pub few_shot: Vec<String>,
}

/// Each few-shot example followed by a newline.
pub open spec fn examples_text(ex: Seq<Seq<char>>) -> Seq<char>
    decreases ex.len(),
{
    if ex.len() == 0 {
        Seq::empty()
    } else {
        examples_text(ex.drop_last()) + ex.last() + seq!['\n']
    }
}

/// The names between `{{` and the next `}}` in `s`, scanning from `from`,
/// in order of appearance (repetitions included).
pub open spec fn placeholder_names(s: Seq<char>, from: int) -> Seq<Seq<char>>
    decreases s.len() - from,
{
    match find_from(s, seq!['{', '{'], from) {
        None => Seq::empty(),
        Some(st) => match find_from(s, seq!['}', '}'], st + 2) {
            None => Seq::empty(),
            Some(e) => if e + 2 > from && e + 2 <= s.len() {
                seq![s.subrange(st + 2, e)] + placeholder_names(s, e + 2)
            } else {
                Seq::empty()
            },
        },
    }
}

fn find_pair(s: &[char], a: char, b: char, from: usize) -> (r: Option<usize>)
    requires
        from <= s.len(),
    ensures
        match r {
            Some(i) => Some(i as int) == find_from(s@, seq![a, b], from as int),
            None => find_from(s@, seq![a, b], from as int) is None,
        },
    decreases s.len() - from,
{
    if s.len() - from < 2 {
        return None;
    }
    assert(s@.subrange(from as int, from + 2) =~= seq![s@[from as int], s@[from + 1]]);
    if s[from] == a && s[from + 1] == b {
        Some(from)
    } else {
        find_pair(s, a, b, from + 1)
    }
}

impl PromptTemplate {
    /// Create a template from a body string.
    pub fn new(template: &str) -> (t: PromptTemplate)
        ensures
            t.template@ == template@,
            t.few_shot@.len() == 0,
    {
        PromptTemplate { template: template.to_owned(), few_shot: Vec::new() }
    }

    /// Set the few-shot examples, returning the updated template.
    pub fn with_few_shot(self, examples: Vec<String>) -> (t: PromptTemplate)
        ensures
            t.template@ == self.template@,
            t.few_shot@ == examples@,
    {
        PromptTemplate { template: self.template, few_shot: examples }
    }

    /// Render the few-shot examples, one per line, then the substituted
    /// template body.
    pub fn render(&self, vars: &[(&str, &str)]) -> (out: String)
        ensures
            out@ == examples_text(views(self.few_shot@)) + render_spec(
                self.template@,
                pair_views(vars@),
            ),
            out@.skip(example_offset(views(self.few_shot@), self.few_shot@.len() as int))
                == render_spec(self.template@, pair_views(vars@)),
            forall|k: int|
                0 <= k < self.few_shot@.len() ==> out@.subrange(
                    example_offset(views(self.few_shot@), k),
                    example_offset(views(self.few_shot@), k) + self.few_shot@[k]@.len(),
                ) == self.few_shot@[k]@ && out@[example_offset(views(self.few_shot@), k)
                    + self.few_shot@[k]@.len()] == '\n',
    {
        let mut out = String::new();
        let mut i: usize = 0;
        assert(views(self.few_shot@).take(0) == Seq::<Seq<char>>::empty());
        while i < self.few_shot.len()
            invariant
                i <= self.few_shot@.len(),
                out@ == examples_text(views(self.few_shot@).take(i as int)),
            decreases self.few_shot@.len() - i,
        {
            push_str(&mut out, self.few_shot[i].as_str());
            push_char(&mut out, '\n');
            assert(views(self.few_shot@).take(i + 1).drop_last() == views(self.few_shot@).take(
                i as int,
            ));
            i += 1;
        }
        assert(views(self.few_shot@).take(self.few_shot@.len() as int) == views(self.few_shot@));
        let body = render_prompt(self.template.as_str(), vars);
        let ghost examples = out@;
        push_str(&mut out, body.as_str());
        proof {
            let v = views(self.few_shot@);
            lemma_examples_one_per_line(v);
            assert(out@.skip(examples.len() as int) =~= body@);
            assert forall|k: int| 0 <= k < self.few_shot@.len() implies out@.subrange(
                example_offset(v, k),
                example_offset(v, k) + self.few_shot@[k]@.len(),
            ) == self.few_shot@[k]@ && out@[example_offset(v, k) + self.few_shot@[k]@.len()]
                == '\n' by {
                assert(v[k] == self.few_shot@[k]@);
                lemma_example_offset_mono(v, 0, k);
                lemma_example_offset_mono(v, k + 1, v.len() as int);
                assert(out@.subrange(example_offset(v, k), example_offset(v, k) + v[k].len())
                    =~= examples.subrange(example_offset(v, k), example_offset(v, k) + v[k].len()));
            }
        }
        out
    }

    /// The `{{variable}}` names referenced by the template body, unique, in
    /// first-seen order. Few-shot examples are not scanned.
    pub fn variables(&self) -> (names: Vec<String>)
        ensures
            views(names@) == dedup(placeholder_names(self.template@, 0)),
    {
        let s = chars_of(self.template.as_str());
        let mut seen: Vec<String> = Vec::new();
        let mut pos: usize = 0;
        let ghost mut found: Seq<Seq<char>> = Seq::empty();
        loop
            invariant
                pos <= s.len(),
                s@ == self.template@,
                found + placeholder_names(s@, pos as int) == placeholder_names(s@, 0),
                views(seen@) == dedup(found),
            ensures
                views(seen@) == dedup(placeholder_names(s@, 0)),
            decreases s.len() - pos,
        {
            let st = match find_pair(s.as_slice(), '{', '{', pos) {
                Some(st) => st,
                None => {
                    assert(found == placeholder_names(s@, 0));
                    break ;
                },
            };
            proof {
                lemma_find_from_bounds(s@, seq!['{', '{'], pos as int);
            }
            let e = match find_pair(s.as_slice(), '}', '}', st + 2) {
                Some(e) => e,
                None => {
                    assert(found == placeholder_names(s@, 0));
                    break ;
                },
            };
            proof {
                lemma_find_from_bounds(s@, seq!['}', '}'], st + 2);
            }
            let name = string_from_range(s.as_slice(), st + 2, e);
            let ghost f0 = found;
            proof {
                found = found.push(name@);
                assert(placeholder_names(s@, pos as int) == seq![name@] + placeholder_names(
                    s@,
                    e + 2,
                ));
                assert(f0 + (seq![name@] + placeholder_names(s@, e + 2)) == found
                    + placeholder_names(s@, e + 2));
                assert(found.drop_last() == f0);
            }
            let mut present = false;
            let mut k: usize = 0;
            while k < seen.len()
                invariant
                    k <= seen@.len(),
                    present == views(seen@).take(k as int).contains(name@),
                decreases seen@.len() - k,
            {
                let ghost before = views(seen@).take(k as int);
                let eq = seen[k] == name;
                assert(views(seen@).take(k + 1) == before.push(seen@[k as int]@));
                proof {
                    let after = views(seen@).take(k + 1);
                    if eq {
                        assert(after[k as int] == name@);
                    } else if present {
                        let j = choose|j: int| 0 <= j < before.len() && before[j] == name@;
                        assert(after[j] == name@);
                    } else {
                        assert forall|j: int| 0 <= j < after.len() implies after[j] != name@ by {
                            if j < k {
                                assert(after[j] == before[j]);
                            }
                        }
                    }
                }
                if eq {
                    present = true;
                }
                k += 1;
            }
            assert(views(seen@).take(seen@.len() as int) == views(seen@));
            if !present {
                let ghost s0 = seen@;
                seen.push(name);
                assert(views(seen@) == views(s0).push(seen@.last()@));
            }
            pos = e + 2;
        }
        seen
    }
}

/// Where example `k` starts in the rendered examples when each example takes
/// its own length plus one newline.
pub open spec fn example_offset(ex: Seq<Seq<char>>, k: int) -> int
    decreases k,
{
    if k <= 0 {
        0
    } else {
        example_offset(ex, k - 1) + ex[k - 1].len() + 1
    }
}

proof fn lemma_example_offset_prefix(ex: Seq<Seq<char>>, k: int)
    requires
        0 <= k < ex.len(),
    ensures
        example_offset(ex.drop_last(), k) == example_offset(ex, k),
    decreases k,
{
    if k > 0 {
        lemma_example_offset_prefix(ex, k - 1);
    }
}

/// The rendered examples are the examples in order, each on a line of its
/// own: example `k` stands at its offset, a newline follows it, and the text
/// ends right after the last newline, so what comes next (the template body)
/// starts on a line of its own.
pub proof fn lemma_examples_one_per_line(ex: Seq<Seq<char>>)
    ensures
        examples_text(ex).len() == example_offset(ex, ex.len() as int),
        forall|k: int|
            0 <= k < ex.len() ==> examples_text(ex).subrange(
                example_offset(ex, k),
                example_offset(ex, k) + ex[k].len(),
            ) == ex[k] && examples_text(ex)[example_offset(ex, k) + ex[k].len()] == '\n',
        ex.len() > 0 ==> examples_text(ex).last() == '\n',
    decreases ex.len(),
{
    if ex.len() > 0 {
        let init = ex.drop_last();
        lemma_examples_one_per_line(init);
        let n = ex.len() - 1;
        lemma_example_offset_prefix(ex, n);
        let t = examples_text(ex);
        assert(t == examples_text(init) + ex[n] + seq!['\n']);
        assert forall|k: int| 0 <= k < ex.len() implies t.subrange(
            example_offset(ex, k),
            example_offset(ex, k) + ex[k].len(),
        ) == ex[k] && t[example_offset(ex, k) + ex[k].len()] == '\n' by {
            lemma_example_offset_mono(ex, 0, k);
            if k < n {
                lemma_example_offset_prefix(ex, k);
                lemma_example_offset_prefix(ex, k + 1);
                assert(example_offset(ex, k + 1) <= example_offset(ex, n)) by {
                    lemma_example_offset_mono(ex, k + 1, n);
                }
                assert(init[k] == ex[k]);
                assert(t.subrange(example_offset(ex, k), example_offset(ex, k) + ex[k].len())
                    =~= examples_text(init).subrange(example_offset(ex, k), example_offset(ex, k) + ex[k].len()));
                assert(t[example_offset(ex, k) + ex[k].len()] == examples_text(init)[example_offset(ex, k) + ex[k].len()]);
            } else {
                assert(t.subrange(example_offset(ex, k), example_offset(ex, k) + ex[k].len()) =~= ex[k]);
            }
        }
    }
}

proof fn lemma_example_offset_mono(ex: Seq<Seq<char>>, a: int, b: int)
    requires
        0 <= a <= b,
    ensures
        example_offset(ex, a) <= example_offset(ex, b),
    decreases b - a,
{
    if a < b {
        lemma_example_offset_mono(ex, a, b - 1);
    }
}

} // verus!
