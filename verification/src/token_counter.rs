//! Model-accurate token counting with tiktoken encodings.

use vstd::prelude::*;
use crate::message::{Message, role_name, role_to_str};
use crate::text::{has_prefix, str_starts_with};
use crate::token_counting::TokenCounter;

verus! {

/// Number of tokens of `text` in the `o200k_base` encoding (special tokens
/// allowed), or `None` where tiktoken's encoder reports an error (its
/// splitting regex can give up on very long runs of whitespace).
pub uninterp spec fn o200k_token_count(text: Seq<char>) -> Option<nat>;

/// Number of tokens of `text` in the `cl100k_base` encoding (special tokens
/// allowed), or `None` where tiktoken's encoder reports an error.
pub uninterp spec fn cl100k_token_count(text: Seq<char>) -> Option<nat>;

/// Tokens of `text` in `o200k_base`: `CoreBPE::encode` on tiktoken's shared
/// `o200k_base` encoder with every special token allowed, counted; `None`
/// when `encode` returns an error.
#[verifier::external_body]
fn o200k_len(text: &str) -> (r: Option<usize>)
    ensures
        match r {
            Some(n) => o200k_token_count(text@) == Some(n as nat),
            None => o200k_token_count(text@) is None,
        },
{
    let encoder = tiktoken_rs::o200k_base_singleton();
    let allowed = encoder.special_tokens();
    match encoder.encode(text, &allowed) {
        Ok((tokens, _)) => Some(tokens.len()),
        Err(_) => None,
    }
}

/// Tokens of `text` in `cl100k_base`: `CoreBPE::encode` on tiktoken's shared
/// `cl100k_base` encoder with every special token allowed, counted; `None`
/// when `encode` returns an error.
#[verifier::external_body]
fn cl100k_len(text: &str) -> (r: Option<usize>)
    ensures
        match r {
            Some(n) => cl100k_token_count(text@) == Some(n as nat),
            None => cl100k_token_count(text@) is None,
        },
{
    let encoder = tiktoken_rs::cl100k_base_singleton();
    let allowed = encoder.special_tokens();
    match encoder.encode(text, &allowed) {
        Ok((tokens, _)) => Some(tokens.len()),
        Err(_) => None,
    }
}

/// Which encoding a model uses.
#[derive(Debug, Clone, Copy, PartialEq, Eq, Structural)]
pub enum TokenEncoding {
    /// `o200k_base`: GPT-4o and the o-series.
    O200kBase,
    /// `cl100k_base`: GPT-4, GPT-3.5 and the embedding models.
    Cl100kBase,
    /// An unknown model, counted with `cl100k_base`.
    Fallback,
}

/// The encoding of a model, chosen by its name's prefix.
pub open spec fn encoding_for(model: Seq<char>) -> TokenEncoding {
    if has_prefix(model, "gpt-4o"@) || has_prefix(model, "o1"@) || has_prefix(model, "o3"@)
        || has_prefix(model, "o4"@) {
        TokenEncoding::O200kBase
    } else if has_prefix(model, "gpt-4"@) || has_prefix(model, "gpt-3.5"@)
        || has_prefix(model, "text-embedding-ada"@) || has_prefix(model, "text-embedding-3"@) {
        TokenEncoding::Cl100kBase
    } else {
        TokenEncoding::Fallback
    }
}

/// Tokens of `text` in an encoding (`None` where the encoder fails).
pub open spec fn encoded_len(enc: TokenEncoding, text: Seq<char>) -> Option<nat> {
    match enc {
        TokenEncoding::O200kBase => o200k_token_count(text),
        _ => cl100k_token_count(text),
    }
}

/// Tokens of one chat message: its role, its content and 4 tokens of
/// framing.
pub open spec fn message_tokens(enc: TokenEncoding, m: Message) -> Option<nat> {
    match (encoded_len(enc, role_name(m.role)), encoded_len(enc, m.content@)) {
        (Some(r), Some(c)) => Some(r + c + 4),
        _ => None,
    }
}

/// Tokens of the messages, without reply priming.
pub open spec fn messages_tokens(enc: TokenEncoding, ms: Seq<Message>) -> Option<nat>
    decreases ms.len(),
{
    if ms.len() == 0 {
        Some(0)
    } else {
        match (messages_tokens(enc, ms.drop_last()), message_tokens(enc, ms.last())) {
            (Some(a), Some(b)) => Some(a + b),
            _ => None,
        }
    }
}

/// Tokens of a chat: the messages plus 3 tokens priming the reply.
pub open spec fn chat_tokens(enc: TokenEncoding, ms: Seq<Message>) -> Option<nat> {
    match messages_tokens(enc, ms) {
        Some(n) => Some(n + 3),
        None => None,
    }
}

/// Whether a chat can be counted: the encoder succeeds on every part and
/// the count fits in `usize`.
pub open spec fn chat_countable(enc: TokenEncoding, ms: Seq<Message>) -> bool {
    chat_tokens(enc, ms) matches Some(n) && n <= usize::MAX
}

/// Pick the encoding of a model.
pub fn select_encoding(model: &str) -> (r: TokenEncoding)
    ensures
        r == encoding_for(model@),
{
    if str_starts_with(model, "gpt-4o") || str_starts_with(model, "o1") || str_starts_with(model, "o3")
        || str_starts_with(model, "o4") {
        TokenEncoding::O200kBase
    } else if str_starts_with(model, "gpt-4") || str_starts_with(model, "gpt-3.5")
        || str_starts_with(model, "text-embedding-ada") || str_starts_with(model, "text-embedding-3") {
        TokenEncoding::Cl100kBase
    } else {
        TokenEncoding::Fallback
    }
}

fn encode_len(enc: TokenEncoding, text: &str) -> (r: Option<usize>)
    ensures
        match r {
            Some(n) => encoded_len(enc, text@) == Some(n as nat),
            None => encoded_len(enc, text@) is None,
        },
{
    match enc {
        TokenEncoding::O200kBase => o200k_len(text),
        _ => cl100k_len(text),
    }
}

/// Counts tokens with the encoding of a given model.
pub struct TikTokenCounter {
    encoding: TokenEncoding,
    model_name: String,
}

impl TikTokenCounter {
    /// The encoding in use.
    pub closed spec fn encoding_spec(&self) -> TokenEncoding {
        self.encoding
    }

    /// The model name.
    pub closed spec fn model(&self) -> Seq<char> {
        self.model_name@
    }

    /// A counter for `model`; an unknown model falls back to `cl100k_base`.
    pub fn for_model(model: &str) -> (r: Self)
        ensures
            r.encoding_spec() == encoding_for(model@),
            r.model() == model@,
    {
        TikTokenCounter { encoding: select_encoding(model), model_name: model.to_owned() }
    }

    /// The model name.
    pub fn model_name(&self) -> (r: &str)
        ensures
            r@ == self.model(),
    {
        self.model_name.as_str()
    }

    /// The encoding in use.
    pub fn encoding(&self) -> (r: TokenEncoding)
        ensures
            r == self.encoding_spec(),
    {
        self.encoding
    }

    /// Tokens of `text` (the encoder must succeed on it).
    pub fn count_str(&self, text: &str) -> (n: usize)
        requires
            encoded_len(self.encoding_spec(), text@) is Some,
        ensures
            encoded_len(self.encoding_spec(), text@) == Some(n as nat),
    {
        match encode_len(self.encoding, text) {
            Some(n) => n,
            None => 0,
        }
    }

    /// Tokens of `text`, or `None` when the encoder fails on it.
    pub fn checked_count_str(&self, text: &str) -> (r: Option<usize>)
        ensures
            match r {
                Some(n) => encoded_len(self.encoding_spec(), text@) == Some(n as nat),
                None => encoded_len(self.encoding_spec(), text@) is None,
            },
    {
        match encode_len(self.encoding, text) {
            Some(_) => Some(self.count_str(text)),
            None => None,
        }
    }

    /// Tokens of a chat, or `None` when the encoder fails on a part of it or
    /// the count does not fit in `usize`.
    pub fn checked_count_messages(&self, messages: &[Message]) -> (r: Option<usize>)
        ensures
            match r {
                Some(n) => chat_tokens(self.encoding_spec(), messages@) == Some(n as nat),
                None => !chat_countable(self.encoding_spec(), messages@),
            },
    {
        let ghost enc = self.encoding_spec();
        let mut total: usize = 0;
        let mut i: usize = 0;
        proof {
            assert(messages@.take(0) =~= Seq::<Message>::empty());
        }
        while i < messages.len()
            invariant
                i <= messages@.len(),
                enc == self.encoding_spec(),
                messages_tokens(enc, messages@.take(i as int)) == Some(total as nat),
            decreases messages@.len() - i,
        {
            proof {
                assert(messages@.take(i as int + 1).drop_last() =~= messages@.take(i as int));
                assert(messages@.take(i as int + 1).last() == messages@[i as int]);
                lemma_messages_tokens_prefix(enc, messages@, i as int + 1);
            }
            let role = encode_len(self.encoding, role_to_str(&messages[i].role));
            let content = encode_len(self.encoding, messages[i].content.as_str());
            let step = match (role, content) {
                (Some(a), Some(b)) => match a.checked_add(b) {
                    Some(c) => c.checked_add(4),
                    None => None,
                },
                _ => {
                    return None;
                },
            };
            let next = match step {
                Some(st) => total.checked_add(st),
                None => None,
            };
            match next {
                Some(t) => {
                    total = t;
                },
                None => {
                    return None;
                },
            }
            i = i + 1;
        }
        proof {
            assert(messages@.take(messages@.len() as int) =~= messages@);
        }
        total.checked_add(3)
    }

    /// Tokens of a chat (the encoder must succeed on it and the count fit in
    /// `usize`).
    pub fn count_messages(&self, messages: &[Message]) -> (n: usize)
        requires
            chat_countable(self.encoding_spec(), messages@),
        ensures
            chat_tokens(self.encoding_spec(), messages@) == Some(n as nat),
    {
        match self.checked_count_messages(messages) {
            Some(n) => n,
            None => 0,
        }
    }

    /// Tokens of a chat for `model` (the encoder must succeed on it and the
    /// count fit in `usize`).
    pub fn estimate_for_model(messages: &[Message], model: &str) -> (n: usize)
        requires
            chat_countable(encoding_for(model@), messages@),
        ensures
            chat_tokens(encoding_for(model@), messages@) == Some(n as nat),
    {
        TikTokenCounter::for_model(model).count_messages(messages)
    }

    /// Tokens of a chat for `model`, or `None` when the encoder fails or the
    /// count does not fit in `usize`.
    pub fn checked_estimate_for_model(messages: &[Message], model: &str) -> (r: Option<usize>)
        ensures
            match r {
                Some(n) => chat_tokens(encoding_for(model@), messages@) == Some(n as nat),
                None => !chat_countable(encoding_for(model@), messages@),
            },
    {
        let counter = TikTokenCounter::for_model(model);
        match counter.checked_count_messages(messages) {
            Some(_) => Some(TikTokenCounter::estimate_for_model(messages, model)),
            None => None,
        }
    }
}

/// Counting a longer prefix fails where a shorter one fails, and never
/// gives less.
proof fn lemma_messages_tokens_prefix(enc: TokenEncoding, ms: Seq<Message>, i: int)
    requires
        0 <= i <= ms.len(),
    ensures
        messages_tokens(enc, ms.take(i)) is None ==> messages_tokens(enc, ms) is None,
        messages_tokens(enc, ms.take(i)) is Some && messages_tokens(enc, ms) is Some
            ==> messages_tokens(enc, ms.take(i))->0 <= messages_tokens(enc, ms)->0,
    decreases ms.len() - i,
{
    if i < ms.len() {
        lemma_messages_tokens_prefix(enc, ms, i + 1);
        assert(ms.take(i + 1).drop_last() =~= ms.take(i));
    } else {
        assert(ms.take(i) =~= ms);
    }
}

impl TokenCounter for TikTokenCounter {
    open spec fn can_count_messages(&self, messages: Seq<Message>) -> bool {
        chat_countable(self.encoding_spec(), messages)
    }

    open spec fn can_count_str(&self, text: Seq<char>) -> bool {
        encoded_len(self.encoding_spec(), text) is Some
    }

    fn count_messages(&self, messages: &[Message]) -> (n: usize)
        ensures
            chat_tokens(self.encoding_spec(), messages@) == Some(n as nat),
    {
        TikTokenCounter::count_messages(self, messages)
    }

    fn count_str(&self, text: &str) -> (n: usize)
        ensures
            encoded_len(self.encoding_spec(), text@) == Some(n as nat),
    {
        TikTokenCounter::count_str(self, text)
    }
}

} // verus!
