//! Evaluation helpers: CSV rows, keyword and tool-usage counts and the
//! prompt of an LLM judge. Scores themselves are fractions computed by the
//! caller from the counts here.

use vstd::prelude::*;
use std::sync::Arc;
use crate::text::{chars_of, contains_seq, find_seq, push_str, str_contains, str_eq};
use crate::transformers::{replace_all, replace_str};
use crate::agent_loop::{canonical_json, json_canonical};

verus! {

/// The lower-case form of a string (what `str::to_lowercase` returns).
pub uninterp spec fn lowercase(s: Seq<char>) -> Seq<char>;

/// `str::to_lowercase`.
#[verifier::external_body]
fn to_lowercase(s: &str) -> (r: String)
    ensures
        r@ == lowercase(s@),
{
    s.to_lowercase()
}

// ---------------------------------------------------------------------------
// JSON schema keys
// ---------------------------------------------------------------------------

/// What `text` parses to with `serde_json`, as far as key counting reads
/// it: `None` when it is not JSON, `Some(None)` for a value that is not an
/// object, `Some(Some(keys))` for an object with these keys.
pub uninterp spec fn json_keys(text: Seq<char>) -> Option<Option<Seq<Seq<char>>>>;

/// Parse `text` with `serde_json::from_str` into a `serde_json::Value` and,
/// for an object, list its keys.
#[verifier::external_body]
fn json_top_keys(text: &str) -> (r: Option<Option<Vec<String>>>)
    ensures
        match r {
            None => json_keys(text@) is None,
            Some(None) => json_keys(text@) == Some(None::<Seq<Seq<char>>>),
            Some(Some(keys)) => json_keys(text@) == Some(Some(keys@.map_values(|k: String| k@))),
        },
{
    match serde_json::from_str::<serde_json::Value>(text) {
        Ok(serde_json::Value::Object(map)) => Some(Some(map.keys().cloned().collect())),
        Ok(_) => Some(None),
        Err(_) => None,
    }
}

/// Number of `wanted` keys that occur in `keys`.
pub open spec fn count_present(wanted: Seq<Seq<char>>, keys: Seq<Seq<char>>) -> nat
    decreases wanted.len(),
{
    if wanted.len() == 0 {
        0
    } else {
        count_present(wanted.drop_last(), keys) + if keys.contains(wanted.last()) { 1nat } else { 0nat }
    }
}

/// How an answer `output` meets a JSON schema `schema`, as
/// `(present, total)` with the score `present / total` (1 when `total` is
/// 0), or `None` when the answer is not JSON. For an object schema, its
/// top-level keys found in an object answer out of all of them (none of one
/// when the answer is not an object); for any other schema, whether the two
/// values print the same, all or nothing.
pub open spec fn schema_counts(schema: Seq<char>, output: Seq<char>) -> Option<(nat, nat)> {
    match json_keys(output) {
        None => None,
        Some(out_keys) => match json_keys(schema) {
            Some(Some(schema_keys)) => match out_keys {
                Some(keys) => Some((count_present(schema_keys, keys), schema_keys.len())),
                None => Some((0, 1)),
            },
            _ => if json_canonical(schema) == json_canonical(output) { Some((1, 1)) } else { Some((0, 1)) },
        },
    }
}

/// Whether `key` is among `keys`.
fn contains_key(keys: &Vec<String>, key: &str) -> (r: bool)
    ensures
        r == keys@.map_values(|k: String| k@).contains(key@),
{
    let ghost ks = keys@.map_values(|k: String| k@);
    let mut i: usize = 0;
    while i < keys.len()
        invariant
            i <= keys@.len(),
            ks == keys@.map_values(|k: String| k@),
            forall|j: int| 0 <= j < i ==> ks[j] != key@,
        decreases keys@.len() - i,
    {
        if str_eq(keys[i].as_str(), key) {
            assert(ks[i as int] == key@);
            return true;
        }
        i = i + 1;
    }
    proof {
        if ks.contains(key@) {
            let j = choose|j: int| 0 <= j < ks.len() && ks[j] == key@;
            assert(ks[j] == key@);
        }
    }
    false
}

/// How an answer meets a JSON schema (both given as JSON text): see
/// [`schema_counts`].
pub fn schema_key_counts(schema: &str, output: &str) -> (r: Option<(usize, usize)>)
    ensures
        match r {
            None => schema_counts(schema@, output@) is None,
            Some((p, t)) => schema_counts(schema@, output@) == Some((p as nat, t as nat)),
        },
{
    let out_keys = match json_top_keys(output) {
        None => {
            return None;
        },
        Some(k) => k,
    };
    match json_top_keys(schema) {
        Some(Some(schema_keys)) => match out_keys {
            Some(keys) => {
                let ghost sk = schema_keys@.map_values(|k: String| k@);
                let ghost ok = keys@.map_values(|k: String| k@);
                let mut present: usize = 0;
                let mut i: usize = 0;
                while i < schema_keys.len()
                    invariant
                        i <= schema_keys@.len(),
                        sk == schema_keys@.map_values(|k: String| k@),
                        ok == keys@.map_values(|k: String| k@),
                        present == count_present(sk.take(i as int), ok),
                        present <= i,
                    decreases schema_keys@.len() - i,
                {
                    proof {
                        assert(sk.take(i as int + 1).drop_last() =~= sk.take(i as int));
                        assert(sk.take(i as int + 1).last() == schema_keys@[i as int]@);
                    }
                    if contains_key(&keys, schema_keys[i].as_str()) {
                        present = present + 1;
                    }
                    i = i + 1;
                }
                proof {
                    assert(sk.take(sk.len() as int) =~= sk);
                }
                Some((present, schema_keys.len()))
            },
            None => Some((0, 1)),
        },
        _ => {
            let a = canonical_json(schema);
            let b = canonical_json(output);
            let same = match (a, b) {
                (Some(x), Some(y)) => str_eq(x.as_str(), y.as_str()),
                (None, None) => true,
                _ => false,
            };
            if same { Some((1, 1)) } else { Some((0, 1)) }
        },
    }
}

// ---------------------------------------------------------------------------
// CSV
// ---------------------------------------------------------------------------

/// Whether a CSV field must be quoted: it holds a comma, a quote or a
/// newline.
pub open spec fn needs_quoting(s: Seq<char>) -> bool {
    contains_seq(s, ","@) || contains_seq(s, "\""@) || contains_seq(s, "\n"@)
}

/// A CSV field: quoted with inner quotes doubled when it needs quoting.
pub open spec fn csv_field(s: Seq<char>) -> Seq<char> {
    if needs_quoting(s) {
        "\""@ + replace_all(s, "\""@, "\"\""@) + "\""@
    } else {
        s
    }
}

/// Escape a CSV field.
pub fn escape_csv(s: &str) -> (r: String)
    ensures
        r@ == csv_field(s@),
{
    if str_contains(s, ",") || str_contains(s, "\"") || str_contains(s, "\n") {
        let mut out = String::new();
        push_str(&mut out, "\"");
        proof {
            reveal_strlit("\"");
        }
        let inner = replace_str(s, "\"", "\"\"");
        push_str(&mut out, inner.as_str());
        push_str(&mut out, "\"");
        out
    } else {
        s.to_owned()
    }
}

/// `"true"` or `"false"`.
pub open spec fn bool_text(b: bool) -> Seq<char> {
    if b { "true"@ } else { "false"@ }
}

/// The CSV header of an evaluation report.
pub fn csv_header() -> (r: String)
    ensures
        r@ == "case_id,metric,score,passed"@,
{
    "case_id,metric,score,passed".to_owned()
}

/// One CSV row: case id, metric name, formatted score and whether the case
/// passed; a case without scores has empty metric and score fields.
pub fn csv_row(case_id: &str, metric: Option<(&str, &str)>, passed: bool) -> (r: String)
    ensures
        r@ == csv_field(case_id@) + ","@ + (match metric {
            Some((name, score)) => csv_field(name@) + ","@ + score@,
            None => ","@,
        }) + ","@ + bool_text(passed),
{
    let mut out = escape_csv(case_id);
    push_str(&mut out, ",");
    match metric {
        Some((name, score)) => {
            let f = escape_csv(name);
            push_str(&mut out, f.as_str());
            push_str(&mut out, ",");
            push_str(&mut out, score);
        },
        None => {
            push_str(&mut out, ",");
        },
    }
    push_str(&mut out, ",");
    if passed {
        push_str(&mut out, "true");
    } else {
        push_str(&mut out, "false");
    }
    out
}

/// One evaluated case as the CSV export reads it: its id, its metric names
/// with their formatted scores in the order they are written, and whether
/// it passed.
#[derive(Debug)]
pub struct CsvCase {
    /// Case id.
    pub case_id: String,
    /// Metric names with formatted scores.
    pub scores: Vec<(String, String)>,
    /// Whether the case passed.
    pub passed: bool,
}

/// The row of a case for one metric (or for none), as [`csv_row`] writes it.
pub open spec fn row_text(case_id: Seq<char>, metric: Option<(Seq<char>, Seq<char>)>, passed: bool) -> Seq<char> {
    csv_field(case_id) + ","@ + (match metric {
        Some((name, score)) => csv_field(name) + ","@ + score,
        None => ","@,
    }) + ","@ + bool_text(passed)
}

/// The lines of a case's scores `scores`, each ended by a newline.
pub open spec fn score_lines(case_id: Seq<char>, scores: Seq<(String, String)>, passed: bool) -> Seq<char>
    decreases scores.len(),
{
    if scores.len() == 0 {
        Seq::empty()
    } else {
        score_lines(case_id, scores.drop_last(), passed)
            + row_text(case_id, Some((scores.last().0@, scores.last().1@)), passed) + "\n"@
    }
}

/// The lines of a case: one per metric, or one with empty metric and score
/// fields when it has no scores.
pub open spec fn case_lines(c: CsvCase) -> Seq<char> {
    if c.scores@.len() == 0 {
        row_text(c.case_id@, None, c.passed) + "\n"@
    } else {
        score_lines(c.case_id@, c.scores@, c.passed)
    }
}

/// The lines of all cases, in order.
pub open spec fn cases_lines(cases: Seq<CsvCase>) -> Seq<char>
    decreases cases.len(),
{
    if cases.len() == 0 { Seq::empty() } else { cases_lines(cases.drop_last()) + case_lines(cases.last()) }
}

/// The CSV export of a report: the header line, then the lines of each case.
pub fn csv_report(cases: &[CsvCase]) -> (r: String)
    ensures
        r@ == "case_id,metric,score,passed\n"@ + cases_lines(cases@),
{
    let mut out = csv_header();
    push_str(&mut out, "\n");
    let ghost head = out@;
    proof {
        reveal_strlit("case_id,metric,score,passed");
        reveal_strlit("\n");
        reveal_strlit("case_id,metric,score,passed\n");
        assert(head =~= "case_id,metric,score,passed\n"@);
        assert(cases@.take(0) =~= Seq::<CsvCase>::empty());
        assert(head + cases_lines(cases@.take(0)) =~= head);
    }
    let mut i: usize = 0;
    while i < cases.len()
        invariant
            i <= cases@.len(),
            head == "case_id,metric,score,passed\n"@,
            out@ == head + cases_lines(cases@.take(i as int)),
        decreases cases@.len() - i,
    {
        proof {
            assert(cases@.take(i as int + 1).drop_last() =~= cases@.take(i as int));
            assert(cases@.take(i as int + 1).last() == cases@[i as int]);
        }
        let c = &cases[i];
        let ghost before = out@;
        if c.scores.len() == 0 {
            let row = csv_row(c.case_id.as_str(), None, c.passed);
            push_str(&mut out, row.as_str());
            push_str(&mut out, "\n");
            proof {
                assert(out@ =~= before + case_lines(cases@[i as int]));
            }
        } else {
            let ghost mid = out@;
            let mut k: usize = 0;
            while k < c.scores.len()
                invariant
                    k <= c.scores@.len(),
                    out@ == mid + score_lines(c.case_id@, c.scores@.take(k as int), c.passed),
                decreases c.scores@.len() - k,
            {
                proof {
                    assert(c.scores@.take(k as int + 1).drop_last() =~= c.scores@.take(k as int));
                    assert(c.scores@.take(k as int + 1).last() == c.scores@[k as int]);
                }
                let ghost b2 = out@;
                let row = csv_row(c.case_id.as_str(), Some((c.scores[k].0.as_str(), c.scores[k].1.as_str())), c.passed);
                push_str(&mut out, row.as_str());
                push_str(&mut out, "\n");
                proof {
                    assert(out@ =~= b2 + row_text(c.case_id@, Some((c.scores@[k as int].0@, c.scores@[k as int].1@)), c.passed) + "\n"@);
                }
                k = k + 1;
            }
            proof {
                assert(c.scores@.take(c.scores@.len() as int) =~= c.scores@);
                assert(out@ =~= before + case_lines(cases@[i as int]));
            }
        }
        proof {
            assert(out@ =~= head + cases_lines(cases@.take(i as int + 1)));
        }
        i = i + 1;
    }
    proof {
        assert(cases@.take(cases@.len() as int) =~= cases@);
    }
    out
}

// ---------------------------------------------------------------------------
// Counting metrics
// ---------------------------------------------------------------------------

/// Number of `keywords` that occur in `text`.
pub open spec fn count_contained(text: Seq<char>, keywords: Seq<Seq<char>>) -> nat
    decreases keywords.len(),
{
    if keywords.len() == 0 {
        0
    } else {
        count_contained(text, keywords.drop_last()) + if contains_seq(text, keywords.last()) { 1nat } else { 0nat }
    }
}

/// Number of keywords that occur in the lower-cased output (the keywords
/// are taken as given).
pub fn keyword_matches(output: &str, keywords: &[&str]) -> (n: usize)
    ensures
        n == count_contained(lowercase(output@), keywords@.map_values(|k: &str| k@)),
{
    let lower = to_lowercase(output);
    let ghost ks = keywords@.map_values(|k: &str| k@);
    let mut n: usize = 0;
    let mut i: usize = 0;
    while i < keywords.len()
        invariant
            i <= keywords@.len(),
            ks == keywords@.map_values(|k: &str| k@),
            n == count_contained(lower@, ks.take(i as int)),
            n <= i,
        decreases keywords@.len() - i,
    {
        proof {
            assert(ks.take(i as int + 1).drop_last() =~= ks.take(i as int));
            assert(ks.take(i as int + 1).last() == keywords@[i as int]@);
        }
        if str_contains(lower.as_str(), keywords[i]) {
            n = n + 1;
        }
        i = i + 1;
    }
    proof {
        assert(ks.take(keywords@.len() as int) =~= ks);
    }
    n
}

/// Checks that an output mentions the expected tools.
pub struct ToolUsageMetric {
    expected_tools: Vec<String>,
}

/// Number of `tools` whose lower-cased name occurs in `text`.
pub open spec fn count_tools(text: Seq<char>, tools: Seq<Seq<char>>) -> nat
    decreases tools.len(),
{
    if tools.len() == 0 {
        0
    } else {
        count_tools(text, tools.drop_last()) + if contains_seq(text, lowercase(tools.last())) { 1nat } else { 0nat }
    }
}

impl ToolUsageMetric {
    /// The expected tool names.
    pub closed spec fn expected(&self) -> Seq<Seq<char>> {
        self.expected_tools@.map_values(|t: String| t@)
    }

    /// A metric expecting the given tools.
    pub fn new(expected_tools: Vec<String>) -> (r: Self)
        ensures
            r.expected() == expected_tools@.map_values(|t: String| t@),
    {
        ToolUsageMetric { expected_tools }
    }

    /// Number of expected tools.
    pub fn expected_count(&self) -> (n: usize)
        ensures
            n == self.expected().len(),
    {
        self.expected_tools.len()
    }

    /// Number of expected tools mentioned in the output, ignoring case.
    pub fn mentioned(&self, actual_output: &str) -> (n: usize)
        ensures
            n == count_tools(lowercase(actual_output@), self.expected()),
    {
        let lower = to_lowercase(actual_output);
        let ghost ts = self.expected();
        let mut n: usize = 0;
        let mut i: usize = 0;
        while i < self.expected_tools.len()
            invariant
                i <= self.expected_tools@.len(),
                ts == self.expected_tools@.map_values(|t: String| t@),
                n == count_tools(lower@, ts.take(i as int)),
                n <= i,
            decreases self.expected_tools@.len() - i,
        {
            proof {
                assert(ts.take(i as int + 1).drop_last() =~= ts.take(i as int));
                assert(ts.take(i as int + 1).last() == self.expected_tools@[i as int]@);
            }
            let t = to_lowercase(self.expected_tools[i].as_str());
            if str_contains(lower.as_str(), t.as_str()) {
                n = n + 1;
            }
            i = i + 1;
        }
        proof {
            assert(ts.take(self.expected_tools@.len() as int) =~= ts);
        }
        n
    }
}

// ---------------------------------------------------------------------------
// LLM judge
// ---------------------------------------------------------------------------

/// `"- {name}: {prompt}"` lines joined with newlines.
pub open spec fn criteria_lines(criteria: Seq<(Seq<char>, Seq<char>)>) -> Seq<char>
    decreases criteria.len(),
{
    if criteria.len() == 0 {
        Seq::empty()
    } else if criteria.len() == 1 {
        "- "@ + criteria[0].0 + ": "@ + criteria[0].1
    } else {
        criteria_lines(criteria.drop_last()) + "\n"@ + "- "@ + criteria.last().0 + ": "@ + criteria.last().1
    }
}

/// The criteria text: the default question when there are no criteria.
pub open spec fn criteria_text(criteria: Seq<(Seq<char>, Seq<char>)>) -> Seq<char> {
    if criteria.len() == 0 { "Is this a high-quality response?"@ } else { criteria_lines(criteria) }
}

/// The prompt a judge receives.
pub open spec fn judge_prompt_text(input: Seq<char>, output: Seq<char>, criteria: Seq<(Seq<char>, Seq<char>)>) -> Seq<char> {
    "Evaluate the following agent response:\n\nInput: "@ + input + "\n\nResponse: "@ + output
        + "\n\nCriteria:\n"@ + criteria_text(criteria)
        + "\n\nProvide a score from 0.0 to 1.0. Respond with only: Score: <number>"@
}

/// Scores a response by asking an LLM judge.
pub struct LlmJudgeMetric<P> {
    provider: Arc<P>,
    criteria: Vec<(String, String)>,
}

impl<P> LlmJudgeMetric<P> {
    /// The judge.
    pub closed spec fn provider_spec(&self) -> P {
        *self.provider
    }

    /// The criteria, as names and prompts.
    pub closed spec fn criteria(&self) -> Seq<(Seq<char>, Seq<char>)> {
        self.criteria@.map_values(|c: (String, String)| (c.0@, c.1@))
    }

    /// A judge metric without criteria.
    pub fn new(provider: P) -> (r: Self)
        ensures
            r.provider_spec() == provider,
            r.criteria() == Seq::<(Seq<char>, Seq<char>)>::empty(),
    {
        let r = LlmJudgeMetric { provider: Arc::new(provider), criteria: Vec::new() };
        proof {
            assert(r.criteria() =~= Seq::<(Seq<char>, Seq<char>)>::empty());
        }
        r
    }

    /// Add a criterion.
    pub fn with_criteria(self, name: &str, prompt: &str) -> (r: Self)
        ensures
            r.provider_spec() == self.provider_spec(),
            r.criteria() == self.criteria().push((name@, prompt@)),
    {
        let mut criteria = self.criteria;
        let ghost before = criteria@;
        criteria.push((name.to_owned(), prompt.to_owned()));
        let r = LlmJudgeMetric { provider: self.provider, criteria };
        proof {
            assert(r.criteria() =~= before.map_values(|c: (String, String)| (c.0@, c.1@)).push((name@, prompt@)));
        }
        r
    }

    /// The judge.
    pub fn provider(&self) -> (r: &Arc<P>)
        ensures
            **r == self.provider_spec(),
    {
        &self.provider
    }

    /// The prompt the judge receives for a response.
    pub fn judge_prompt(&self, input: &str, actual_output: &str) -> (r: String)
        ensures
            r@ == judge_prompt_text(input@, actual_output@, self.criteria()),
    {
        let ghost cs = self.criteria();
        let mut s = String::new();
        push_str(&mut s, "Evaluate the following agent response:\n\nInput: ");
        push_str(&mut s, input);
        push_str(&mut s, "\n\nResponse: ");
        push_str(&mut s, actual_output);
        push_str(&mut s, "\n\nCriteria:\n");
        let ghost head = s@;
        if self.criteria.len() == 0 {
            push_str(&mut s, "Is this a high-quality response?");
        } else {
            let mut i: usize = 0;
            while i < self.criteria.len()
                invariant
                    i <= self.criteria@.len(),
                    cs == self.criteria@.map_values(|c: (String, String)| (c.0@, c.1@)),
                    s@ == head + criteria_lines(cs.take(i as int)),
                decreases self.criteria@.len() - i,
            {
                let ghost before = s@;
                if i > 0 {
                    push_str(&mut s, "\n");
                }
                push_str(&mut s, "- ");
                push_str(&mut s, self.criteria[i].0.as_str());
                push_str(&mut s, ": ");
                push_str(&mut s, self.criteria[i].1.as_str());
                proof {
                    let t = cs.take(i as int + 1);
                    assert(t.drop_last() =~= cs.take(i as int));
                    assert(t.last() == cs[i as int]);
                    if i == 0 {
                        assert(criteria_lines(cs.take(0)) =~= Seq::<char>::empty());
                        assert(t[0] == cs[0]);
                    }
                    assert(s@ =~= head + criteria_lines(t));
                }
                i = i + 1;
            }
            proof {
                assert(cs.take(self.criteria@.len() as int) =~= cs);
            }
        }
        push_str(&mut s, "\n\nProvide a score from 0.0 to 1.0. Respond with only: Score: <number>");
        s
    }
}

/// Wraps a synchronous metric for use where asynchronous ones are expected.
pub struct SyncMetricAdapter<M>(pub M);

} // verus!
