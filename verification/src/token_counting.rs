//! Approximate token counting (4 characters ≈ 1 token).

use vstd::prelude::*;
use crate::message::{Message, byte_len, approx_message_tokens};

verus! {

/// Number of tokens a counter with ratio `r` assigns to a text of `bytes` bytes.
pub open spec fn ratio_tokens(bytes: nat, r: nat) -> nat {
    bytes / r + 1
}

/// Sum over messages of `ratio_tokens(byte length of content, r)`.
pub open spec fn ratio_tokens_msgs(msgs: Seq<Message>, r: nat) -> nat
    decreases msgs.len(),
{
    if msgs.len() == 0 {
        0
    } else {
        ratio_tokens_msgs(msgs.drop_last(), r) + ratio_tokens(byte_len(msgs.last().content@), r)
    }
}

/// Counting a concatenation of message lists gives the sum of the counts;
/// counting no messages gives zero.
pub proof fn law_ratio_count_additive(a: Seq<Message>, b: Seq<Message>, r: nat)
    ensures
        ratio_tokens_msgs(a + b, r) == ratio_tokens_msgs(a, r) + ratio_tokens_msgs(b, r),
        ratio_tokens_msgs(Seq::<Message>::empty(), r) == 0,
    decreases b.len(),
{
    if b.len() == 0 {
        assert(a + b =~= a);
    } else {
        law_ratio_count_additive(a, b.drop_last(), r);
        assert((a + b).drop_last() =~= a + b.drop_last());
        assert((a + b).last() == b.last());
    }
}

/// Approximate token counter using a characters-per-token ratio.
pub struct CharApproxCounter {
    chars_per_token: usize,
}

impl CharApproxCounter {
    /// The ratio in use (at least 1).
    pub closed spec fn ratio(&self) -> nat {
        self.chars_per_token as nat
    }

    /// Well-formedness: the ratio is never zero.
    pub closed spec fn wf(&self) -> bool {
        self.chars_per_token >= 1
    }

    /// Create a counter; a ratio of zero is clamped to one.
    pub fn new(chars_per_token: usize) -> (r: Self)
        ensures
            r.wf(),
            r.ratio() == if chars_per_token == 0 { 1 } else { chars_per_token as nat },
    {
        CharApproxCounter { chars_per_token: if chars_per_token == 0 { 1 } else { chars_per_token } }
    }

    /// The ratio accessor.
    pub fn chars_per_token(&self) -> (r: usize)
        ensures
            r == self.ratio(),
    {
        self.chars_per_token
    }

    /// Count tokens in a message list: per message, bytes / ratio + 1.
    pub fn count(&self, messages: &[Message]) -> (n: usize)
        requires
            self.wf(),
            ratio_tokens_msgs(messages@, self.ratio()) <= usize::MAX,
            forall|k: int| 0 <= k < messages@.len() ==> byte_len(#[trigger] messages@[k].content@) < usize::MAX,
        ensures
            n == ratio_tokens_msgs(messages@, self.ratio()),
    {
        let mut total: usize = 0;
        let mut i: usize = 0;
        while i < messages.len()
            invariant
                self.wf(),
                i <= messages@.len(),
                total == ratio_tokens_msgs(messages@.take(i as int), self.ratio()),
                ratio_tokens_msgs(messages@, self.ratio()) <= usize::MAX,
                forall|k: int| 0 <= k < messages@.len() ==> byte_len(#[trigger] messages@[k].content@) < usize::MAX,
            decreases messages@.len() - i,
        {
            let c = self.count_str(messages[i].content.as_str());
            proof {
                lemma_ratio_prefix_mono(messages@, self.ratio(), i as int + 1, messages@.len() as int);
                assert(messages@.take(i as int + 1).drop_last() =~= messages@.take(i as int));
                assert(messages@.take(messages@.len() as int) =~= messages@);
                assert(messages@.take(i as int + 1).last() == messages@[i as int]);
            }
            total = total + c;
            i = i + 1;
        }
        proof {
            assert(messages@.take(messages@.len() as int) =~= messages@);
        }
        total
    }

    /// Count tokens in one string: bytes / ratio + 1.
    pub fn count_str(&self, text: &str) -> (n: usize)
        requires
            self.wf(),
            byte_len(text@) < usize::MAX,
        ensures
            n == ratio_tokens(byte_len(text@), self.ratio()),
    {
        let len = text.len();
        let cpt = self.chars_per_token;
        let q = len / cpt;
        proof {
            assert(q <= len) by (nonlinear_arith)
                requires
                    cpt >= 1,
                    q == len / cpt,
            ;
        }
        q + 1
    }
}

/// Prefix sums of the ratio estimate grow with the prefix.
pub proof fn lemma_ratio_prefix_mono(msgs: Seq<Message>, r: nat, i: int, j: int)
    requires
        0 <= i <= j <= msgs.len(),
    ensures
        ratio_tokens_msgs(msgs.take(i), r) <= ratio_tokens_msgs(msgs.take(j), r),
    decreases j - i,
{
    if i < j {
        lemma_ratio_prefix_mono(msgs, r, i, j - 1);
        assert(msgs.take(j).drop_last() =~= msgs.take(j - 1));
    }
}

/// The default counter (ratio 4) agrees with the 4-chars-per-token estimate
/// used by the context managers.
pub proof fn lemma_default_ratio_is_approx(msgs: Seq<Message>)
    ensures
        ratio_tokens_msgs(msgs, 4) == crate::message::approx_tokens(msgs),
    decreases msgs.len(),
{
    if msgs.len() > 0 {
        lemma_default_ratio_is_approx(msgs.drop_last());
    }
}

impl Default for CharApproxCounter {
    fn default() -> (r: Self)
        ensures
            r.wf(),
            r.ratio() == 4,
    {
        CharApproxCounter::new(4)
    }
}

/// With one counter, counting two message lists one after the other gives
/// the count of the two lists together: where the joined list can be
/// counted, so can each part, and its count is the sum of theirs.
pub proof fn law_counter_additive(c: CharApproxCounter, a: Seq<Message>, b: Seq<Message>)
    requires
        c.can_count_messages(a + b),
    ensures
        c.can_count_messages(a),
        c.can_count_messages(b),
        ratio_tokens_msgs(a + b, c.ratio()) == ratio_tokens_msgs(a, c.ratio()) + ratio_tokens_msgs(b, c.ratio()),
{
    law_ratio_count_additive(a, b, c.ratio());
    assert forall|k: int| 0 <= k < a.len() implies byte_len(#[trigger] a[k].content@) < usize::MAX by {
        assert((a + b)[k] == a[k]);
    }
    assert forall|k: int| 0 <= k < b.len() implies byte_len(#[trigger] b[k].content@) < usize::MAX by {
        assert((a + b)[a.len() + k] == b[k]);
    }
}

/// Pluggable token counting backend.
pub trait TokenCounter {
    /// Whether counting `messages` stays within `usize`.
    spec fn can_count_messages(&self, messages: Seq<Message>) -> bool;

    /// Whether counting `text` stays within `usize`.
    spec fn can_count_str(&self, text: Seq<char>) -> bool;

    /// Count tokens in a message list.
    fn count_messages(&self, messages: &[Message]) -> usize
        requires
            self.can_count_messages(messages@),
    ;

    /// Count tokens in a single string.
    fn count_str(&self, text: &str) -> usize
        requires
            self.can_count_str(text@),
    ;
}

impl TokenCounter for CharApproxCounter {
    open spec fn can_count_messages(&self, messages: Seq<Message>) -> bool {
        &&& self.wf()
        &&& ratio_tokens_msgs(messages, self.ratio()) <= usize::MAX
        &&& forall|k: int| 0 <= k < messages.len() ==> byte_len(#[trigger] messages[k].content@) < usize::MAX
    }

    open spec fn can_count_str(&self, text: Seq<char>) -> bool {
        self.wf() && byte_len(text) < usize::MAX
    }

    fn count_messages(&self, messages: &[Message]) -> (n: usize)
        ensures
            n == ratio_tokens_msgs(messages@, self.ratio()),
    {
        self.count(messages)
    }

    fn count_str(&self, text: &str) -> (n: usize)
        ensures
            n == ratio_tokens(byte_len(text@), self.ratio()),
    {
        CharApproxCounter::count_str(self, text)
    }
}

} // verus!
