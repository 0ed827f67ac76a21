//! Grounding of retrieved documents into the conversation.

use vstd::prelude::*;
use crate::message::{Message, MessageRole, MessageView, mviews};
use crate::agent_loop::plain;
use crate::context::ContextManager;
use crate::text::{decimal, push_decimal, push_str, push_char, chars_of, utf8_size, utf8_size_of, lemma_utf8_size_ge_len};

verus! {

/// A retrieved document: what grounding reads of it.
#[derive(Debug)]
pub struct Document {
    /// Identifier, cited as the source.
    pub id: String,
    /// Text content.
    pub content: String,
}

impl Clone for Document {
    fn clone(&self) -> (r: Self)
        ensures
            r == *self,
    {
        Document { id: self.id.clone(), content: self.content.clone() }
    }
}

impl Document {
    /// A document with the given id and content.
    pub fn new(id: &str, content: &str) -> (r: Document)
        ensures
            r.id@ == id@,
            r.content@ == content@,
    {
        Document { id: id.to_owned(), content: content.to_owned() }
    }
}

/// Formats retrieved documents into context text for the model.
pub trait GroundingStrategy {
    /// The context text for `documents` (empty for no documents).
    fn ground(&self, documents: &[Document]) -> String;
}

/// `"[{n}] "`.
pub open spec fn citation_mark(n: nat) -> Seq<char> {
    "["@ + decimal(n) + "] "@
}

// ---------------------------------------------------------------------------
// PrependStrategy
// ---------------------------------------------------------------------------

/// Numbered contents, `"[1] {content}"`, separated by blank lines.
pub open spec fn numbered(docs: Seq<Document>) -> Seq<char>
    decreases docs.len(),
{
    if docs.len() == 0 {
        Seq::empty()
    } else if docs.len() == 1 {
        citation_mark(1) + docs[0].content@
    } else {
        numbered(docs.drop_last()) + "\n\n"@ + citation_mark(docs.len()) + docs.last().content@
    }
}

/// Plain numbered grounding: `"[1] {content}\n\n[2] {content}..."`.
pub struct PrependStrategy;

impl GroundingStrategy for PrependStrategy {
    fn ground(&self, documents: &[Document]) -> (r: String)
        ensures
            r@ == numbered(documents@),
    {
        let mut s = String::new();
        let mut i: usize = 0;
        while i < documents.len()
            invariant
                i <= documents@.len(),
                s@ == numbered(documents@.take(i as int)),
            decreases documents@.len() - i,
        {
            let ghost before = s@;
            if i > 0 {
                push_str(&mut s, "\n\n");
            }
            push_str(&mut s, "[");
            push_decimal(&mut s, i as u128 + 1);
            push_str(&mut s, "] ");
            push_str(&mut s, documents[i].content.as_str());
            proof {
                let t = documents@.take(i as int + 1);
                assert(t.drop_last() =~= documents@.take(i as int));
                assert(t.last() == documents@[i as int]);
                if i == 0 {
                    assert(t[0] == documents@[0]);
                    assert(s@ =~= citation_mark(1) + documents@[0].content@);
                } else {
                    assert(s@ =~= before + "\n\n"@ + citation_mark(i as nat + 1) + documents@[i as int].content@);
                }
            }
            i = i + 1;
        }
        proof {
            assert(documents@.take(documents@.len() as int) =~= documents@);
        }
        s
    }
}

// ---------------------------------------------------------------------------
// CitationStrategy
// ---------------------------------------------------------------------------

/// `"[{n}] {content} (Source: {id})\n"` for each document.
pub open spec fn citations(docs: Seq<Document>) -> Seq<char>
    decreases docs.len(),
{
    if docs.len() == 0 {
        Seq::empty()
    } else {
        citations(docs.drop_last()) + citation_mark(docs.len()) + docs.last().content@ + " (Source: "@
            + docs.last().id@ + ")\n"@
    }
}

/// Grounding with numbered source citations.
pub struct CitationStrategy;

impl GroundingStrategy for CitationStrategy {
    fn ground(&self, documents: &[Document]) -> (r: String)
        ensures
            r@ == (if documents@.len() == 0 { Seq::empty() } else { "Context:\n\n"@ + citations(documents@) }),
    {
        if documents.len() == 0 {
            return String::new();
        }
        let mut s = String::new();
        push_str(&mut s, "Context:\n\n");
        let mut i: usize = 0;
        while i < documents.len()
            invariant
                i <= documents@.len(),
                s@ == "Context:\n\n"@ + citations(documents@.take(i as int)),
            decreases documents@.len() - i,
        {
            let ghost before = s@;
            push_str(&mut s, "[");
            push_decimal(&mut s, i as u128 + 1);
            push_str(&mut s, "] ");
            push_str(&mut s, documents[i].content.as_str());
            push_str(&mut s, " (Source: ");
            push_str(&mut s, documents[i].id.as_str());
            push_str(&mut s, ")\n");
            proof {
                let t = documents@.take(i as int + 1);
                assert(t.drop_last() =~= documents@.take(i as int));
                assert(t.last() == documents@[i as int]);
                assert(s@ =~= "Context:\n\n"@ + citations(t));
            }
            i = i + 1;
        }
        proof {
            assert(documents@.take(documents@.len() as int) =~= documents@);
            assert(Seq::<char>::empty() + "Context:\n\n"@ =~= "Context:\n\n"@);
        }
        s
    }
}

// ---------------------------------------------------------------------------
// ContextWindowStrategy
// ---------------------------------------------------------------------------

/// `"[{n}] {content}\n\n"`.
pub open spec fn window_entry(n: nat, content: Seq<char>) -> Seq<char> {
    citation_mark(n) + content + "\n\n"@
}

/// The smaller of two numbers.
pub open spec fn min_nat(a: nat, b: nat) -> nat {
    if a <= b { a } else { b }
}

/// The entries of `docs[i..]` that fit a budget of `budget` bytes when
/// `used` bytes are taken: whole entries while they fit; the first that does
/// not fit is cut to the characters that fit after 10 bytes of overhead,
/// ending with `"…"`, if more than 20 fit and the cut entry stays within the
/// budget, and ends the context.
pub open spec fn window_entries(docs: Seq<Document>, i: nat, used: nat, budget: nat) -> Seq<char>
    decreases docs.len() - i,
{
    if i >= docs.len() {
        Seq::empty()
    } else {
        let entry = window_entry(i + 1, docs[i as int].content@);
        let len = utf8_size(entry);
        if used + len > budget {
            let available: nat = if budget >= used + 10 { (budget - used - 10) as nat } else { 0 };
            let c = docs[i as int].content@;
            if available > 20 && used + citation_mark(i + 1).len() + min_nat(available, c.len()) + 3 <= budget {
                citation_mark(i + 1) + c.take(min_nat(available, c.len()) as int) + "…\n\n"@
            } else {
                Seq::empty()
            }
        } else {
            entry + window_entries(docs, i + 1, used + len, budget)
        }
    }
}

/// Grounding within a token budget (four bytes a token).
pub struct ContextWindowStrategy {
    max_tokens: usize,
}

impl ContextWindowStrategy {
    /// The budget in tokens.
    pub closed spec fn budget_tokens(&self) -> nat {
        self.max_tokens as nat
    }

    /// The budget is positive and its size in bytes fits in a `usize`.
    #[verifier::type_invariant]
    spec fn wf(&self) -> bool {
        0 < self.max_tokens && self.max_tokens * 4 <= usize::MAX
    }

    /// A strategy with a budget of `max_tokens` tokens (`max_tokens > 0`).
    pub fn new(max_tokens: usize) -> (r: Self)
        requires
            max_tokens > 0,
            max_tokens * 4 <= usize::MAX,
        ensures
            r.budget_tokens() == max_tokens,
    {
        ContextWindowStrategy { max_tokens }
    }
}

/// What `window_entries` adds stays within the budget left.
proof fn lemma_window_len(docs: Seq<Document>, i: nat, used: nat, budget: nat)
    requires
        used <= budget,
    ensures
        used + window_entries(docs, i, used, budget).len() <= budget,
    decreases docs.len() - i,
{
    reveal_strlit("…\n\n");
    if i < docs.len() {
        let entry = window_entry(i + 1, docs[i as int].content@);
        let len = utf8_size(entry);
        if used + len <= budget {
            lemma_utf8_size_ge_len(entry);
            lemma_window_len(docs, i + 1, used + len, budget);
        }
    }
}

impl GroundingStrategy for ContextWindowStrategy {
    fn ground(&self, documents: &[Document]) -> (r: String)
        ensures
            r@ == (if documents@.len() == 0 || self.budget_tokens() * 4 < 10 {
                Seq::empty()
            } else {
                "Context:\n\n"@ + window_entries(documents@, 0, 10, self.budget_tokens() * 4)
            }),
            r@.len() <= self.budget_tokens() * 4,
    {
        proof {
            use_type_invariant(self);
        }
        let budget: u128 = self.max_tokens as u128 * 4;
        if documents.len() == 0 || budget < 10 {
            return String::new();
        }
        proof {
            lemma_window_len(documents@, 0, 10, budget as nat);
            reveal_strlit("Context:\n\n");
        }
        let mut s = String::new();
        push_str(&mut s, "Context:\n\n");
        let mut used: u128 = 10;
        let ghost total = window_entries(documents@, 0, 10, budget as nat);
        let mut i: usize = 0;
        while i < documents.len()
            invariant_except_break
                s@ + window_entries(documents@, i as nat, used as nat, budget as nat) == "Context:\n\n"@ + total,
            invariant
                i <= documents@.len(),
                used <= budget,
                budget == self.max_tokens * 4,
                self.max_tokens * 4 <= usize::MAX,
                10 <= used,
                total == window_entries(documents@, 0, 10, budget as nat),
            ensures
                s@ == "Context:\n\n"@ + total,
            decreases documents@.len() - i,
        {
            let mut entry = String::new();
            push_str(&mut entry, "[");
            push_decimal(&mut entry, i as u128 + 1);
            push_str(&mut entry, "] ");
            push_str(&mut entry, documents[i].content.as_str());
            push_str(&mut entry, "\n\n");
            proof {
                assert(entry@ =~= window_entry(i as nat + 1, documents@[i as int].content@));
            }
            let entry_chars = chars_of(entry.as_str());
            let len = utf8_size_of(entry_chars.as_slice());
            if used > budget || len > budget - used {
                let available: u128 = if budget >= used && budget - used >= 10 { budget - used - 10 } else { 0 };
                let cs = chars_of(documents[i].content.as_str());
                let take: usize = if available < cs.len() as u128 { available as usize } else { cs.len() };
                let mut mark = String::new();
                push_str(&mut mark, "[");
                push_decimal(&mut mark, i as u128 + 1);
                push_str(&mut mark, "] ");
                proof {
                    assert(mark@ =~= citation_mark(i as nat + 1));
                    reveal_strlit("…\n\n");
                }
                let mark_len = chars_of(mark.as_str()).len();
                if available > 20 && used + mark_len as u128 + take as u128 + 3 <= budget {
                    push_str(&mut s, mark.as_str());
                    let ghost mid = s@;
                    let mut k: usize = 0;
                    while k < take
                        invariant
                            k <= take <= cs@.len(),
                            s@ == mid + cs@.take(k as int),
                        decreases take - k,
                    {
                        push_char(&mut s, cs[k]);
                        proof {
                            assert(cs@.take(k as int + 1) =~= cs@.take(k as int).push(cs@[k as int]));
                        }
                        k = k + 1;
                    }
                    push_str(&mut s, "…\n\n");
                    proof {
                        assert(take == min_nat(available as nat, cs@.len()));
                    }
                }
                proof {
                    assert(s@ =~= "Context:\n\n"@ + total);
                }
                break;
            }
            let ghost before = s@;
            push_str(&mut s, entry.as_str());
            used = used + len;
            proof {
                assert(s@ + window_entries(documents@, i as nat + 1, used as nat, budget as nat)
                    =~= before + window_entries(documents@, i as nat, (used - len) as nat, budget as nat));
            }
            i = i + 1;
        }
        s
    }
}

// ---------------------------------------------------------------------------
// RAG context manager
// ---------------------------------------------------------------------------

/// Retrieval-augmented context: before each request, the last user message
/// is used as a query and the retrieved documents, grounded by `G`, are
/// prepended as a system message.
pub struct RagContextManager<R, G> {
    retriever: R,
    grounding: G,
    max_docs: usize,
}

impl<R> RagContextManager<R, PrependStrategy> {
    /// A manager over `retriever` with plain numbered grounding and at most
    /// five documents.
    pub fn new(retriever: R) -> (r: Self)
        ensures
            r.retriever_spec() == retriever,
            r.max_docs_spec() == 5,
    {
        RagContextManager { retriever, grounding: PrependStrategy, max_docs: 5 }
    }
}

impl<R, G> ContextManager for RagContextManager<R, G> {
}

impl<R, G> RagContextManager<R, G> {
    /// The retriever.
    pub closed spec fn retriever_spec(&self) -> R {
        self.retriever
    }

    /// The grounding strategy.
    pub closed spec fn grounding_spec(&self) -> G {
        self.grounding
    }

    /// The largest number of documents retrieved.
    pub closed spec fn max_docs_spec(&self) -> nat {
        self.max_docs as nat
    }

    /// Use another grounding strategy.
    pub fn with_grounding<G2>(self, grounding: G2) -> (r: RagContextManager<R, G2>)
        ensures
            r.retriever_spec() == self.retriever_spec(),
            r.grounding_spec() == grounding,
            r.max_docs_spec() == self.max_docs_spec(),
    {
        RagContextManager { retriever: self.retriever, grounding, max_docs: self.max_docs }
    }

    /// Retrieve at most `max_docs` documents.
    pub fn with_max_docs(self, max_docs: usize) -> (r: Self)
        ensures
            r.retriever_spec() == self.retriever_spec(),
            r.grounding_spec() == self.grounding_spec(),
            r.max_docs_spec() == max_docs,
    {
        RagContextManager { max_docs, ..self }
    }

    /// The retriever.
    pub fn retriever(&self) -> (r: &R)
        ensures
            *r == self.retriever_spec(),
    {
        &self.retriever
    }

    /// The grounding strategy.
    pub fn grounding(&self) -> (r: &G)
        ensures
            *r == self.grounding_spec(),
    {
        &self.grounding
    }

    /// The largest number of documents retrieved.
    pub fn max_docs(&self) -> (r: usize)
        ensures
            r == self.max_docs_spec(),
    {
        self.max_docs
    }
}

/// Index of the last user message in `s`, or -1.
pub open spec fn last_user(s: Seq<Message>) -> int
    decreases s.len(),
{
    if s.len() == 0 {
        -1
    } else if s.last().role == MessageRole::User {
        s.len() - 1
    } else {
        last_user(s.drop_last())
    }
}

/// The retrieval query for `messages`: the content of the last user
/// message, or empty if there is none.
pub fn last_user_query(messages: &[Message]) -> (r: String)
    ensures
        r@ == (if last_user(messages@) >= 0 { messages@[last_user(messages@)].content@ } else { Seq::empty() }),
{
    let mut i: usize = messages.len();
    proof {
        assert(messages@.take(messages@.len() as int) =~= messages@);
    }
    while i > 0
        invariant
            i <= messages@.len(),
            last_user(messages@) == last_user(messages@.take(i as int)),
        decreases i,
    {
        proof {
            assert(messages@.take(i as int).drop_last() =~= messages@.take(i as int - 1));
            assert(messages@.take(i as int).last() == messages@[i as int - 1]);
        }
        if messages[i - 1].role == MessageRole::User {
            return messages[i - 1].content.clone();
        }
        i = i - 1;
    }
    proof {
        assert(messages@.take(messages@.len() as int) =~= messages@);
    }
    String::new()
}

/// Prepend grounded context as a system message; an empty context leaves
/// the messages unchanged.
pub fn prepend_context(messages: &mut Vec<Message>, context: String)
    ensures
        mviews(final(messages)@) == (if context@.len() == 0 {
            mviews(old(messages)@)
        } else {
            seq![plain(MessageRole::System, context@)] + mviews(old(messages)@)
        }),
{
    if context.as_str().is_empty() {
        return;
    }
    let ghost before = messages@;
    messages.insert(0, Message { role: MessageRole::System, content: context, tool_call_id: None });
    proof {
        assert(mviews(messages@) =~= seq![plain(MessageRole::System, context@)] + mviews(before));
    }
}

} // verus!
