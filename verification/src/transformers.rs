//! Tool-output transformers: what a tool's output becomes before it enters
//! the conversation.

use vstd::prelude::*;
use crate::types::AgentState;
use crate::store::{StrMap, lookup_key, store_key, keys_unique, law_store_then_lookup, text_entries, lemma_text_entries};
use crate::message::byte_len;
use crate::text::{
    chars_of, decimal, push_decimal, push_str, push_char, string_from_range, str_eq, utf8_size,
    utf8_size_of, matches_at, occurs_at, has_prefix,
};

verus! {

// ---------------------------------------------------------------------------
// Interface
// ---------------------------------------------------------------------------

/// Transforms a tool's output before it is added to the context.
pub trait OutputTransformer {
    /// Whether `result` is an output this transformer may give for `output`
    /// of tool `tool_name` in state `state` (by default, any output: a
    /// transformer says what it returns by defining this).
    open spec fn may_transform(&self, output: Seq<char>, tool_name: Seq<char>, state: AgentState, result: Seq<char>) -> bool {
        true
    }

    /// The transformed output of tool `tool_name`.
    fn transform(&self, output: String, tool_name: &str, state: &AgentState) -> (r: String)
        ensures
            self.may_transform(output@, tool_name@, *state, r@),
    ;

    /// Estimated token count of an output (by default its byte length
    /// divided by 4, plus one).
    fn estimate_output_tokens(&self, output: &str) -> (n: usize)
        requires
            byte_len(output@) < usize::MAX,
        default_ensures
            n == byte_len(output@) / 4 + 1,
    {
        output.len() / 4 + 1
    }
}

// ---------------------------------------------------------------------------
// Character search
// ---------------------------------------------------------------------------

/// Index of the first `c` in `s`, or -1.
pub open spec fn first_index_of(s: Seq<char>, c: char) -> int
    decreases s.len(),
{
    if s.len() == 0 {
        -1
    } else if s[0] == c {
        0
    } else {
        let r = first_index_of(s.drop_first(), c);
        if r < 0 { -1 } else { r + 1 }
    }
}

/// Index of the last `c` in `s`, or -1.
pub open spec fn last_index_of(s: Seq<char>, c: char) -> int
    decreases s.len(),
{
    if s.len() == 0 {
        -1
    } else if s.last() == c {
        s.len() - 1
    } else {
        last_index_of(s.drop_last(), c)
    }
}

proof fn lemma_first_index_of(s: Seq<char>, c: char)
    ensures
        -1 <= first_index_of(s, c) < s.len(),
        first_index_of(s, c) >= 0 ==> s[first_index_of(s, c)] == c,
        forall|j: int| 0 <= j < s.len() && (first_index_of(s, c) < 0 || j < first_index_of(s, c))
            ==> #[trigger] s[j] != c,
    decreases s.len(),
{
    if s.len() > 0 && s[0] != c {
        lemma_first_index_of(s.drop_first(), c);
        assert forall|j: int| 0 <= j < s.len() && (first_index_of(s, c) < 0 || j < first_index_of(s, c))
            implies #[trigger] s[j] != c by {
            if j > 0 {
                assert(s[j] == s.drop_first()[j - 1]);
            }
        }
        if first_index_of(s, c) >= 0 {
            assert(s[first_index_of(s, c)] == s.drop_first()[first_index_of(s, c) - 1]);
        }
    }
}

proof fn lemma_last_index_of(s: Seq<char>, c: char)
    ensures
        -1 <= last_index_of(s, c) < s.len(),
        last_index_of(s, c) >= 0 ==> s[last_index_of(s, c)] == c,
        forall|j: int| 0 <= j < s.len() && j > last_index_of(s, c) ==> #[trigger] s[j] != c,
    decreases s.len(),
{
    if s.len() > 0 && s.last() != c {
        lemma_last_index_of(s.drop_last(), c);
        assert forall|j: int| 0 <= j < s.len() && j > last_index_of(s, c) implies #[trigger] s[j] != c by {
            if j < s.len() - 1 {
                assert(s[j] == s.drop_last()[j]);
            }
        }
        if last_index_of(s, c) >= 0 {
            assert(s[last_index_of(s, c)] == s.drop_last()[last_index_of(s, c)]);
        }
    }
}

fn find_char(cs: &[char], c: char) -> (r: Option<usize>)
    ensures
        match r {
            Some(i) => i as int == first_index_of(cs@, c),
            None => first_index_of(cs@, c) < 0,
        },
{
    proof {
        lemma_first_index_of(cs@, c);
    }
    let mut i: usize = 0;
    while i < cs.len()
        invariant
            i <= cs@.len(),
            forall|j: int| 0 <= j < i ==> cs@[j] != c,
            -1 <= first_index_of(cs@, c) < cs@.len(),
            first_index_of(cs@, c) >= 0 ==> cs@[first_index_of(cs@, c)] == c,
            forall|j: int| 0 <= j < cs@.len() && (first_index_of(cs@, c) < 0 || j < first_index_of(cs@, c))
                ==> #[trigger] cs@[j] != c,
        decreases cs@.len() - i,
    {
        if cs[i] == c {
            return Some(i);
        }
        i = i + 1;
    }
    None
}

fn rfind_char(cs: &[char], c: char) -> (r: Option<usize>)
    ensures
        match r {
            Some(i) => i as int == last_index_of(cs@, c),
            None => last_index_of(cs@, c) < 0,
        },
{
    proof {
        lemma_last_index_of(cs@, c);
    }
    let mut i: usize = cs.len();
    while i > 0
        invariant
            i <= cs@.len(),
            forall|j: int| i <= j < cs@.len() ==> cs@[j] != c,
            -1 <= last_index_of(cs@, c) < cs@.len(),
            last_index_of(cs@, c) >= 0 ==> cs@[last_index_of(cs@, c)] == c,
            forall|j: int| 0 <= j < cs@.len() && j > last_index_of(cs@, c) ==> #[trigger] cs@[j] != c,
        decreases i,
    {
        if cs[i - 1] == c {
            return Some(i - 1);
        }
        i = i - 1;
    }
    None
}

// ---------------------------------------------------------------------------
// JsonExtractor
// ---------------------------------------------------------------------------

/// The span from the first `open` to the last `close`, if both occur in
/// that order.
pub open spec fn delimited(s: Seq<char>, open: char, close: char) -> Option<Seq<char>> {
    let a = first_index_of(s, open);
    let b = last_index_of(s, close);
    if a >= 0 && b >= 0 && b >= a { Some(s.subrange(a, b + 1)) } else { None }
}

/// What the JSON extractor keeps of an output: the outermost `{...}` span,
/// else the outermost `[...]` span, else the whole output.
pub open spec fn extract_json(s: Seq<char>) -> Seq<char> {
    match delimited(s, '{', '}') {
        Some(t) => t,
        None => match delimited(s, '[', ']') {
            Some(t) => t,
            None => s,
        },
    }
}

/// Extracts embedded JSON from verbose tool output.
pub struct JsonExtractor;

fn span(cs: &[char], open: char, close: char) -> (r: Option<String>)
    ensures
        match r {
            Some(t) => delimited(cs@, open, close) == Some(t@),
            None => delimited(cs@, open, close) is None,
        },
{
    proof {
        lemma_first_index_of(cs@, open);
        lemma_last_index_of(cs@, close);
    }
    let n = cs.len();
    match find_char(cs, open) {
        Some(a) => match rfind_char(cs, close) {
            Some(b) => {
                proof {
                    assert(b < n);
                }
                if b >= a {
                    Some(string_from_range(cs, a, b + 1))
                } else {
                    None
                }
            },
            None => None,
        },
        None => None,
    }
}

impl OutputTransformer for JsonExtractor {
    open spec fn may_transform(&self, output: Seq<char>, tool_name: Seq<char>, state: AgentState, result: Seq<char>) -> bool {
        result == extract_json(output)
    }

    fn transform(&self, output: String, tool_name: &str, state: &AgentState) -> (r: String)
        ensures
            r@ == extract_json(output@),
    {
        let cs = chars_of(output.as_str());
        match span(cs.as_slice(), '{', '}') {
            Some(t) => t,
            None => match span(cs.as_slice(), '[', ']') {
                Some(t) => t,
                None => output,
            },
        }
    }
}

/// The JSON extractor prefers an object: when the output has a `{` with a
/// `}` at or after it, the result runs from the first `{` to the last `}`,
/// whatever brackets lie between. Only when there is no such object does it
/// take the span from the first `[` to the last `]`, and with neither it
/// returns the output unchanged.
pub proof fn law_json_extract_prefers_object(s: Seq<char>)
    ensures
        forall|a: int, b: int|
            #![trigger s[a], s[b]]
            0 <= a <= b < s.len() && s[a] == '{' && s[b] == '}'
            && (forall|j: int| 0 <= j < a ==> s[j] != '{')
            && (forall|j: int| b < j < s.len() ==> s[j] != '}')
            ==> extract_json(s) == s.subrange(a, b + 1),
        (forall|a: int, b: int| 0 <= a <= b < s.len() ==> !(s[a] == '{' && s[b] == '}')) ==>
            forall|a: int, b: int|
                #![trigger s[a], s[b]]
                0 <= a <= b < s.len() && s[a] == '[' && s[b] == ']'
                && (forall|j: int| 0 <= j < a ==> s[j] != '[')
                && (forall|j: int| b < j < s.len() ==> s[j] != ']')
                ==> extract_json(s) == s.subrange(a, b + 1),
        (forall|a: int, b: int| 0 <= a <= b < s.len() ==> !(s[a] == '{' && s[b] == '}'))
            && (forall|a: int, b: int| 0 <= a <= b < s.len() ==> !(s[a] == '[' && s[b] == ']'))
            ==> extract_json(s) == s,
{
    lemma_first_index_of(s, '{');
    lemma_last_index_of(s, '}');
    lemma_first_index_of(s, '[');
    lemma_last_index_of(s, ']');
    let fo = first_index_of(s, '{');
    let lo = last_index_of(s, '}');
    let fa = first_index_of(s, '[');
    let la = last_index_of(s, ']');
    if (forall|a: int, b: int| 0 <= a <= b < s.len() ==> !(s[a] == '{' && s[b] == '}')) {
        if fo >= 0 && lo >= 0 && lo >= fo {
            assert(!(s[fo] == '{' && s[lo] == '}'));
        }
        if (forall|a: int, b: int| 0 <= a <= b < s.len() ==> !(s[a] == '[' && s[b] == ']')) {
            if fa >= 0 && la >= 0 && la >= fa {
                assert(!(s[fa] == '[' && s[la] == ']'));
            }
        }
    }
}

// ---------------------------------------------------------------------------
// Truncation
// ---------------------------------------------------------------------------

/// An output cut to `limit` characters, with a note of its original length
/// in characters: unchanged if it is at most `limit` characters long.
pub open spec fn truncated(s: Seq<char>, limit: nat) -> Seq<char> {
    if s.len() <= limit {
        s
    } else {
        s.take(limit as int) + "\n\n[output truncated from "@ + decimal(s.len()) + " to "@ + decimal(limit)
            + " chars]"@
    }
}

/// The first `n` characters (all of them if there are fewer).
fn take_chars(cs: &[char], n: usize) -> (r: String)
    ensures
        r@ == cs@.take(if n <= cs@.len() { n as int } else { cs@.len() as int }),
{
    let k = if n <= cs.len() { n } else { cs.len() };
    let r = string_from_range(cs, 0, k);
    proof {
        assert(cs@.subrange(0, k as int) =~= cs@.take(k as int));
    }
    r
}

/// Cut `output` to `limit` characters with a note of its original length,
/// unless it is at most `limit` characters long.
pub fn truncate_output(output: String, limit: usize) -> (r: String)
    ensures
        r@ == truncated(output@, limit as nat),
{
    let cs = chars_of(output.as_str());
    let n = cs.len();
    if n <= limit {
        return output;
    }
    let mut s = take_chars(cs.as_slice(), limit);
    push_str(&mut s, "\n\n[output truncated from ");
    push_decimal(&mut s, n as u128);
    push_str(&mut s, " to ");
    push_decimal(&mut s, limit as u128);
    push_str(&mut s, " chars]");
    s
}

/// The limit of a budget-aware truncator: halved when the context is
/// already heavily used.
pub open spec fn budget_limit(max_chars: nat, aggressive: bool) -> nat {
    if aggressive { max_chars / 2 } else { max_chars }
}

/// Budget-aware truncation: cut to `max_chars` characters, or to half of
/// that when `aggressive` (the context utilisation is above the threshold).
pub fn budget_truncate(output: String, max_chars: usize, aggressive: bool) -> (r: String)
    ensures
        r@ == truncated(output@, budget_limit(max_chars as nat, aggressive)),
{
    let limit = if aggressive { max_chars / 2 } else { max_chars };
    truncate_output(output, limit)
}

// ---------------------------------------------------------------------------
// Replacement
// ---------------------------------------------------------------------------

/// `s` with every occurrence of `pat` (scanning left to right, without
/// overlap) replaced by `rep` (what `str::replace` returns for a non-empty
/// pattern).
pub open spec fn replace_all(s: Seq<char>, pat: Seq<char>, rep: Seq<char>) -> Seq<char>
    decreases s.len(),
{
    if s.len() == 0 {
        Seq::empty()
    } else if pat.len() > 0 && has_prefix(s, pat) {
        rep + replace_all(s.skip(pat.len() as int), pat, rep)
    } else {
        seq![s[0]] + replace_all(s.drop_first(), pat, rep)
    }
}

/// Replace every occurrence of `pat` (non-empty) in `s` with `rep`.
pub fn replace_str(s: &str, pat: &str, rep: &str) -> (r: String)
    requires
        pat@.len() > 0,
    ensures
        r@ == replace_all(s@, pat@, rep@),
{
    let cs = chars_of(s);
    let ps = chars_of(pat);
    let n = cs.len();
    let mut out = String::new();
    let mut i: usize = 0;
    proof {
        assert(cs@.skip(0) =~= cs@);
        assert(Seq::<char>::empty() + replace_all(cs@, ps@, rep@) =~= replace_all(cs@, ps@, rep@));
    }
    while i < n
        invariant
            n == cs@.len(),
            ps@ == pat@,
            cs@ == s@,
            ps@.len() > 0,
            i <= n,
            out@ + replace_all(cs@.skip(i as int), ps@, rep@) == replace_all(cs@, ps@, rep@),
        decreases n - i,
    {
        let ghost rest = cs@.skip(i as int);
        proof {
            assert(rest.len() > 0);
            assert(rest[0] == cs@[i as int]);
            assert(rest.drop_first() =~= cs@.skip(i as int + 1));
        }
        if matches_at(cs.as_slice(), ps.as_slice(), i) {
            let ghost before = out@;
            push_str(&mut out, rep);
            proof {
                assert(rest.subrange(0, ps@.len() as int) =~= cs@.subrange(i as int, i + ps@.len()));
                assert(has_prefix(rest, ps@));
                assert(rest.skip(ps@.len() as int) =~= cs@.skip(i + ps@.len()));
                assert(out@ + replace_all(cs@.skip(i + ps@.len()), ps@, rep@)
                    =~= before + replace_all(rest, ps@, rep@));
            }
            i = i + ps.len();
        } else {
            let ghost before = out@;
            push_char(&mut out, cs[i]);
            proof {
                if ps@.len() <= rest.len() {
                    assert(rest.subrange(0, ps@.len() as int) =~= cs@.subrange(i as int, i + ps@.len()));
                }
                assert(!has_prefix(rest, ps@));
                assert(out@ + replace_all(cs@.skip(i as int + 1), ps@, rep@)
                    =~= before + replace_all(rest, ps@, rep@));
            }
            i = i + 1;
        }
    }
    proof {
        assert(cs@.skip(n as int) =~= Seq::<char>::empty());
        assert(out@ + Seq::<char>::empty() =~= out@);
        assert(cs@.skip(0) =~= cs@);
    }
    out
}


// ---------------------------------------------------------------------------
// TransformerChain
// ---------------------------------------------------------------------------

/// Pipes an output through several transformers in order.
pub struct TransformerChain {
    transformers: Vec<Box<dyn OutputTransformer>>,
}

/// `steps` are the outputs along a chain of transformers: it starts with the
/// input, and each stage may turn one step into the next.
pub open spec fn chain_steps(
    ts: Seq<Box<dyn OutputTransformer>>,
    tool_name: Seq<char>,
    state: AgentState,
    steps: Seq<Seq<char>>,
) -> bool {
    &&& steps.len() == ts.len() + 1
    &&& forall|k: int| 0 <= k < ts.len() ==> #[trigger] ts[k].may_transform(steps[k], tool_name, state, steps[k + 1])
}

impl TransformerChain {
    /// A chain of the given transformers.
    pub fn new(transformers: Vec<Box<dyn OutputTransformer>>) -> (r: Self)
        ensures
            r.stages() == transformers@.len(),
            r.stage_list() == transformers@,
    {
        TransformerChain { transformers }
    }

    /// Number of transformers.
    pub closed spec fn stages(&self) -> nat {
        self.transformers@.len()
    }

    /// The transformers, in the order they run.
    pub closed spec fn stage_list(&self) -> Seq<Box<dyn OutputTransformer>> {
        self.transformers@
    }
}

impl OutputTransformer for TransformerChain {
    /// The output passed through every stage in order.
    open spec fn may_transform(&self, output: Seq<char>, tool_name: Seq<char>, state: AgentState, result: Seq<char>) -> bool {
        exists|steps: Seq<Seq<char>>| #[trigger] chain_steps(self.stage_list(), tool_name, state, steps)
            && steps[0] == output && steps.last() == result
    }

    fn transform(&self, output: String, tool_name: &str, state: &AgentState) -> (r: String) {
        let ghost input = output@;
        let mut out = output;
        let ghost mut steps: Seq<Seq<char>> = seq![input];
        let mut i: usize = 0;
        while i < self.transformers.len()
            invariant
                i <= self.transformers@.len(),
                steps.len() == i + 1,
                steps[0] == input,
                steps.last() == out@,
                forall|k: int| 0 <= k < i ==> #[trigger] self.transformers@[k].may_transform(
                    steps[k], tool_name@, *state, steps[k + 1]),
            decreases self.transformers@.len() - i,
        {
            let ghost before = steps;
            let next = self.transformers[i].transform(out, tool_name, state);
            proof {
                steps = before.push(next@);
                assert forall|k: int| 0 <= k < i + 1 implies #[trigger] self.transformers@[k].may_transform(
                    steps[k], tool_name@, *state, steps[k + 1]) by {
                    if k < i {
                        assert(steps[k] == before[k] && steps[k + 1] == before[k + 1]);
                    }
                }
            }
            out = next;
            i = i + 1;
        }
        proof {
            assert(chain_steps(self.stage_list(), tool_name@, *state, steps));
        }
        out
    }
}

// ---------------------------------------------------------------------------
// ProgressiveTransformer and FullOutputRetriever
// ---------------------------------------------------------------------------

/// The default summarisation prompt; `{output}` stands for the output.
pub open spec fn default_summary_prompt() -> Seq<char> {
    "Summarize the following tool output concisely, preserving all key data points and values. Be brief but complete:\n\n{output}"@
}

/// The reply to a lookup of `tool_name` in a cache of full outputs.
pub open spec fn retrieval_text(cache: Seq<(Seq<char>, Seq<char>)>, tool_name: Seq<char>) -> Seq<char> {
    match lookup_key(cache, tool_name) {
        Some(o) => o,
        None => "[No cached output found for tool '"@ + tool_name
            + "'. The output may have expired or the tool name is incorrect.]"@,
    }
}

/// Serves full outputs cached by a [`ProgressiveTransformer`], as the
/// `__get_full_output` tool.
pub struct FullOutputRetriever {
    cache: StrMap<String>,
}

impl FullOutputRetriever {
    /// The cached outputs by tool name.
    pub closed spec fn cached(&self) -> Seq<(Seq<char>, Seq<char>)> {
        text_entries(self.cache.view_entries())
    }

    /// No tool name twice.
    pub closed spec fn wf(&self) -> bool {
        self.cache.wf()
    }

    /// An empty cache.
    pub fn new() -> (r: Self)
        ensures
            r.cached() == Seq::<(Seq<char>, Seq<char>)>::empty(),
            r.wf(),
    {
        let r = FullOutputRetriever { cache: StrMap::new() };
        proof {
            assert(r.cached() =~= Seq::<(Seq<char>, Seq<char>)>::empty());
        }
        r
    }

    /// Cache the full output of `tool_name`, replacing an earlier one.
    pub fn store(&mut self, tool_name: &str, output: &str)
        requires
            old(self).wf(),
        ensures
            final(self).wf(),
            final(self).cached() == store_key(old(self).cached(), tool_name@, output@),
    {
        let o = output.to_owned();
        proof {
            lemma_text_entries(self.cache.view_entries(), tool_name@, o);
        }
        self.cache.insert(tool_name, o);
    }

    /// The cached output of `tool_name`, or a note that there is none.
    pub fn retrieve(&self, tool_name: &str) -> (r: String)
        ensures
            r@ == retrieval_text(self.cached(), tool_name@),
    {
        proof {
            lemma_text_entries(self.cache.view_entries(), tool_name@, arbitrary());
        }
        match self.cache.get(tool_name) {
            Some(o) => o.clone(),
            None => {
                let mut s = String::new();
                push_str(&mut s, "[No cached output found for tool '");
                push_str(&mut s, tool_name);
                push_str(&mut s, "'. The output may have expired or the tool name is incorrect.]");
                s
            },
        }
    }

    /// Whether an output is cached for `tool_name`.
    pub fn has_cached(&self, tool_name: &str) -> (r: bool)
        ensures
            r == (lookup_key(self.cached(), tool_name@) is Some),
    {
        proof {
            lemma_text_entries(self.cache.view_entries(), tool_name@, arbitrary());
        }
        self.cache.contains_key(tool_name)
    }
}

/// What the summariser answered.
#[derive(Debug)]
pub enum SummaryReply {
    /// A text summary.
    Text(String),
    /// Tool calls instead of a summary.
    ToolCalls,
    /// The call failed.
    Failed,
}

/// The first `n` characters of `s` (all of them if there are fewer).
pub open spec fn prefix_chars(s: Seq<char>, n: nat) -> Seq<char> {
    s.take(if n <= s.len() { n as int } else { s.len() as int })
}

/// The output returned for a summariser reply on an `output` of tool
/// `tool_name`, with outputs of at most `max` bytes passed through.
pub open spec fn progressive_result(output: Seq<char>, tool_name: Seq<char>, max: nat, reply: SummaryReply) -> Seq<char> {
    match reply {
        SummaryReply::Text(summary) => summary@ + "\n\n[Full output ("@ + decimal(utf8_size(output))
            + " chars) cached. Call __get_full_output with {\"tool_name\": \""@ + tool_name
            + "\"} to retrieve it.]"@,
        SummaryReply::ToolCalls => prefix_chars(output, max) + "\n\n[output truncated from "@
            + decimal(utf8_size(output)) + " chars — summarizer returned tool calls]"@,
        SummaryReply::Failed => prefix_chars(output, max) + "\n\n[output truncated from "@
            + decimal(utf8_size(output)) + " chars — LLM summarization failed]"@,
    }
}

/// Summarises large tool outputs with an LLM and caches the full output
/// for retrieval on demand.
pub struct ProgressiveTransformer<P> {
    provider: P,
    max_summary_length: usize,
    summary_prompt: String,
    cache: FullOutputRetriever,
}

impl<P> ProgressiveTransformer<P> {
    /// The summarising provider.
    pub closed spec fn provider_spec(&self) -> P {
        self.provider
    }

    /// Outputs of at most this many bytes pass unchanged.
    pub closed spec fn max_len(&self) -> nat {
        self.max_summary_length as nat
    }

    /// The prompt template.
    pub closed spec fn prompt(&self) -> Seq<char> {
        self.summary_prompt@
    }

    /// The cache of full outputs.
    pub closed spec fn cached(&self) -> Seq<(Seq<char>, Seq<char>)> {
        self.cache.cached()
    }

    /// The cache holds no tool name twice.
    pub closed spec fn wf(&self) -> bool {
        self.cache.wf()
    }

    /// A transformer summarising with `provider` outputs longer than
    /// `max_summary_length` bytes, with the default prompt and an empty cache.
    pub fn new(provider: P, max_summary_length: usize) -> (r: Self)
        ensures
            r.provider_spec() == provider,
            r.max_len() == max_summary_length,
            r.prompt() == default_summary_prompt(),
            r.cached() == Seq::<(Seq<char>, Seq<char>)>::empty(),
            r.wf(),
    {
        ProgressiveTransformer {
            provider,
            max_summary_length,
            summary_prompt: "Summarize the following tool output concisely, preserving all key data points and values. Be brief but complete:\n\n{output}".to_owned(),
            cache: FullOutputRetriever::new(),
        }
    }

    /// Use another prompt template; `{output}` stands for the output.
    pub fn with_summary_prompt(self, prompt: &str) -> (r: Self)
        ensures
            r.provider_spec() == self.provider_spec(),
            r.max_len() == self.max_len(),
            r.prompt() == prompt@,
            r.cached() == self.cached(),
            r.wf() == self.wf(),
    {
        ProgressiveTransformer { summary_prompt: prompt.to_owned(), ..self }
    }

    /// The summarising provider.
    pub fn provider(&self) -> (r: &P)
        ensures
            *r == self.provider_spec(),
    {
        &self.provider
    }

    /// The retriever over this transformer's cache: a view of the live
    /// cache, so `retrieve` and `has_cached` on it answer from the outputs
    /// cached at the time of the call.
    pub fn retriever_tool(&self) -> (r: &FullOutputRetriever)
        ensures
            r.cached() == self.cached(),
            r.wf() == self.wf(),
    {
        &self.cache
    }

    /// Whether `output` is short enough to pass unchanged.
    pub fn passes_through(&self, output: &str) -> (r: bool)
        ensures
            r == (utf8_size(output@) <= self.max_len()),
    {
        let cs = chars_of(output);
        utf8_size_of(cs.as_slice()) <= self.max_summary_length as u128
    }

    /// Cache the full output of `tool_name`.
    pub fn cache_output(&mut self, tool_name: &str, output: &str)
        requires
            old(self).wf(),
        ensures
            final(self).wf(),
            final(self).cached() == store_key(old(self).cached(), tool_name@, output@),
            final(self).prompt() == old(self).prompt(),
            final(self).max_len() == old(self).max_len(),
            final(self).provider_spec() == old(self).provider_spec(),
    {
        self.cache.store(tool_name, output);
    }

    /// The summarisation prompt for `output`: the template with each
    /// `{output}` replaced.
    pub fn build_prompt(&self, output: &str) -> (r: String)
        ensures
            r@ == replace_all(self.prompt(), "{output}"@, output@),
    {
        proof {
            reveal_strlit("{output}");
        }
        replace_str(self.summary_prompt.as_str(), "{output}", output)
    }

    /// The transformed output once the summariser replied.
    pub fn on_summary(&self, output: &str, tool_name: &str, reply: SummaryReply) -> (r: String)
        ensures
            r@ == progressive_result(output@, tool_name@, self.max_len(), reply),
    {
        let cs = chars_of(output);
        let size = utf8_size_of(cs.as_slice());
        match reply {
            SummaryReply::Text(summary) => {
                let mut s = summary;
                push_str(&mut s, "\n\n[Full output (");
                push_decimal(&mut s, size);
                push_str(&mut s, " chars) cached. Call __get_full_output with {\"tool_name\": \"");
                push_str(&mut s, tool_name);
                push_str(&mut s, "\"} to retrieve it.]");
                s
            },
            SummaryReply::ToolCalls => {
                let mut s = take_chars(cs.as_slice(), self.max_summary_length);
                push_str(&mut s, "\n\n[output truncated from ");
                push_decimal(&mut s, size);
                push_str(&mut s, " chars — summarizer returned tool calls]");
                s
            },
            SummaryReply::Failed => {
                let mut s = take_chars(cs.as_slice(), self.max_summary_length);
                push_str(&mut s, "\n\n[output truncated from ");
                push_decimal(&mut s, size);
                push_str(&mut s, " chars — LLM summarization failed]");
                s
            },
        }
    }
}

/// After caching an output, the retriever serves exactly that output.
pub proof fn law_cache_then_retrieve(
    cache: Seq<(Seq<char>, Seq<char>)>,
    tool_name: Seq<char>,
    output: Seq<char>,
    other: Seq<char>,
)
    requires
        keys_unique(cache),
    ensures
        retrieval_text(store_key(cache, tool_name, output), tool_name) == output,
        other != tool_name ==> retrieval_text(store_key(cache, tool_name, output), other)
            == retrieval_text(cache, other),
{
    law_store_then_lookup(cache, tool_name, output, other);
}
} // verus!
