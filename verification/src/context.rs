//! Context-window management: the pluggable [`ContextStrategy`] and
//! [`ContextManager`] interfaces and the pruning and summarisation logic of
//! the built-in strategies.
//!
//! The thresholds of the built-in strategies are fractions of the context
//! window; the caller turns them into a token limit (`max_tokens`) and the
//! functions here decide which messages stay.

use vstd::prelude::*;
use crate::message::{
    Message, MessageRole, approx_message_tokens, approx_tokens, contents_fit, estimate_tokens,
    lemma_approx_tokens_concat, content_byte_len,
};
use crate::types::AgentState;
use crate::text::{decimal, push_decimal, push_str};

verus! {

// ---------------------------------------------------------------------------
// Interfaces
// ---------------------------------------------------------------------------

/// Context window management run before each request. Implementations must
/// not remove system messages.
pub trait ContextStrategy {
    /// Prune `messages` if necessary to fit `context_window` tokens.
    fn prepare(&self, messages: &mut Vec<Message>, context_window: usize, state: &mut AgentState);
}

/// A context manager's token estimate. The pruning or compression step of a
/// context manager is asynchronous (it may ask a model for a summary) and is
/// driven by the runtime; this trait holds what every manager shares, the
/// estimate of how many tokens a message list takes. Implementations must not
/// remove system messages.
pub trait ContextManager {
    /// Estimated token count of a message list (by default: for each
    /// message, its byte length divided by 4, plus one).
    fn estimate_tokens(&self, messages: &[Message]) -> (n: usize)
        requires
            approx_tokens(messages@) <= usize::MAX,
            contents_fit(messages@),
        default_ensures
            n == approx_tokens(messages@),
    {
        estimate_tokens(messages)
    }
}

/// A strategy that leaves the context untouched.
pub struct NoopContextStrategy;

impl ContextStrategy for NoopContextStrategy {
    fn prepare(&self, messages: &mut Vec<Message>, context_window: usize, state: &mut AgentState)
        ensures
            final(messages)@ == old(messages)@,
            *final(state) == *old(state),
    {
    }
}

// ---------------------------------------------------------------------------
// Shared specifications
// ---------------------------------------------------------------------------

/// Whether a message is a system message.
pub open spec fn is_system(m: Message) -> bool {
    m.role == MessageRole::System
}

/// The system messages of `s`, in order.
pub open spec fn system_msgs(s: Seq<Message>) -> Seq<Message>
    decreases s.len(),
{
    if s.len() == 0 {
        Seq::empty()
    } else if is_system(s.last()) {
        system_msgs(s.drop_last()).push(s.last())
    } else {
        system_msgs(s.drop_last())
    }
}

/// The non-system messages of `s`, in order.
pub open spec fn non_system_msgs(s: Seq<Message>) -> Seq<Message>
    decreases s.len(),
{
    if s.len() == 0 {
        Seq::empty()
    } else if is_system(s.last()) {
        non_system_msgs(s.drop_last())
    } else {
        non_system_msgs(s.drop_last()).push(s.last())
    }
}

/// `state` with the truncation flag raised when `removed` holds.
pub open spec fn flag_truncation(state: AgentState, removed: bool) -> AgentState {
    AgentState { last_output_truncated: state.last_output_truncated || removed, ..state }
}

/// `a` saturating-minus `b`.
pub open spec fn sat_sub(a: nat, b: nat) -> nat {
    if a > b { (a - b) as nat } else { 0 }
}

pub proof fn lemma_system_msgs_concat(a: Seq<Message>, b: Seq<Message>)
    ensures
        system_msgs(a + b) == system_msgs(a) + system_msgs(b),
        non_system_msgs(a + b) == non_system_msgs(a) + non_system_msgs(b),
    decreases b.len(),
{
    if b.len() == 0 {
        assert(a + b =~= a);
        assert(system_msgs(a) + system_msgs(b) =~= system_msgs(a));
        assert(non_system_msgs(a) + non_system_msgs(b) =~= non_system_msgs(a));
    } else {
        lemma_system_msgs_concat(a, b.drop_last());
        assert((a + b).drop_last() =~= a + b.drop_last());
        assert((a + b).last() == b.last());
        assert(system_msgs(a) + system_msgs(b.drop_last()).push(b.last())
            =~= (system_msgs(a) + system_msgs(b.drop_last())).push(b.last()));
        assert(non_system_msgs(a) + non_system_msgs(b.drop_last()).push(b.last())
            =~= (non_system_msgs(a) + non_system_msgs(b.drop_last())).push(b.last()));
    }
}

proof fn lemma_single(m: Message)
    ensures
        system_msgs(seq![m]) == (if is_system(m) { seq![m] } else { Seq::<Message>::empty() }),
        non_system_msgs(seq![m]) == (if is_system(m) { Seq::<Message>::empty() } else { seq![m] }),
{
    assert(seq![m].drop_last() =~= Seq::<Message>::empty());
    assert(seq![m].last() == m);
    assert(system_msgs(Seq::<Message>::empty()) == Seq::<Message>::empty());
    assert(non_system_msgs(Seq::<Message>::empty()) == Seq::<Message>::empty());
    assert(Seq::<Message>::empty().push(m) =~= seq![m]);
}

/// Removing a non-system message keeps the system messages.
proof fn lemma_remove_non_system(s: Seq<Message>, i: int)
    requires
        0 <= i < s.len(),
        !is_system(s[i]),
    ensures
        system_msgs(s.remove(i)) == system_msgs(s),
        approx_tokens(s) == approx_tokens(s.remove(i)) + approx_message_tokens(s[i]),
{
    let a = s.take(i);
    let b = s.skip(i + 1);
    assert(s =~= a + (seq![s[i]] + b));
    assert(s.remove(i) =~= a + b);
    lemma_system_msgs_concat(a, seq![s[i]] + b);
    lemma_system_msgs_concat(seq![s[i]], b);
    lemma_system_msgs_concat(a, b);
    lemma_single(s[i]);
    assert(Seq::<Message>::empty() + system_msgs(b) =~= system_msgs(b));
    lemma_approx_tokens_concat(a, seq![s[i]] + b);
    lemma_approx_tokens_concat(seq![s[i]], b);
    lemma_approx_tokens_concat(a, b);
    assert(seq![s[i]].drop_last() =~= Seq::<Message>::empty());
    assert(approx_tokens(Seq::<Message>::empty()) == 0);
    assert(approx_tokens(seq![s[i]]) == approx_message_tokens(s[i]));
}

proof fn lemma_contents_fit_remove(s: Seq<Message>, i: int)
    requires
        0 <= i < s.len(),
        contents_fit(s),
    ensures
        contents_fit(s.remove(i)),
{
    assert forall|k: int| 0 <= k < s.remove(i).len() implies crate::message::byte_len(
        #[trigger] s.remove(i)[k].content@,
    ) < usize::MAX by {
        if k < i {
            assert(s.remove(i)[k] == s[k]);
        } else {
            assert(s.remove(i)[k] == s[k + 1]);
        }
    }
}

// ---------------------------------------------------------------------------
// Sliding window
// ---------------------------------------------------------------------------

/// Index of the first non-system message, or `s.len()` if there is none.
pub open spec fn first_non_system(s: Seq<Message>) -> int
    decreases s.len(),
{
    if s.len() == 0 {
        0
    } else if !is_system(s[0]) {
        0
    } else {
        1 + first_non_system(s.drop_first())
    }
}

proof fn lemma_first_non_system(s: Seq<Message>)
    ensures
        0 <= first_non_system(s) <= s.len(),
        first_non_system(s) < s.len() ==> !is_system(s[first_non_system(s)]),
        forall|j: int| 0 <= j < first_non_system(s) ==> is_system(#[trigger] s[j]),
    decreases s.len(),
{
    if s.len() > 0 && is_system(s[0]) {
        lemma_first_non_system(s.drop_first());
        assert forall|j: int| 0 <= j < first_non_system(s) implies is_system(#[trigger] s[j]) by {
            if j > 0 {
                assert(s[j] == s.drop_first()[j - 1]);
            }
        }
        if first_non_system(s) < s.len() {
            assert(s[first_non_system(s)] == s.drop_first()[first_non_system(s) - 1]);
        }
    }
}

/// What the sliding window leaves of `msgs` under a limit of `max`
/// tokens: while the estimate exceeds the limit and more than one message
/// remains, the oldest non-system message goes.
pub open spec fn slide(msgs: Seq<Message>, max: nat) -> Seq<Message>
    decreases msgs.len(),
{
    if approx_tokens(msgs) > max && msgs.len() > 1 && 0 <= first_non_system(msgs) < msgs.len() {
        slide(msgs.remove(first_non_system(msgs)), max)
    } else {
        msgs
    }
}

/// Position of the first non-system message.
fn position_non_system(messages: &Vec<Message>) -> (r: Option<usize>)
    ensures
        match r {
            Some(i) => i == first_non_system(messages@) && i < messages@.len(),
            None => first_non_system(messages@) == messages@.len(),
        },
{
    proof {
        lemma_first_non_system(messages@);
    }
    let mut i: usize = 0;
    while i < messages.len()
        invariant
            i <= messages@.len(),
            forall|j: int| 0 <= j < i ==> is_system(#[trigger] messages@[j]),
            0 <= first_non_system(messages@) <= messages@.len(),
            first_non_system(messages@) < messages@.len() ==> !is_system(messages@[first_non_system(messages@)]),
            forall|j: int| 0 <= j < first_non_system(messages@) ==> is_system(#[trigger] messages@[j]),
        decreases messages@.len() - i,
    {
        if messages[i].role != MessageRole::System {
            proof {
                if first_non_system(messages@) < i {
                    assert(is_system(messages@[first_non_system(messages@)]));
                }
                assert(!is_system(messages@[i as int]));
            }
            return Some(i);
        }
        i = i + 1;
    }
    None
}

/// Sliding-window pruning with a limit of `max_tokens`: removes the oldest
/// non-system messages while the estimate exceeds the limit and more than one
/// message remains, and raises the truncation flag if anything was removed.
pub fn slide_window(messages: &mut Vec<Message>, max_tokens: usize, state: &mut AgentState)
    requires
        approx_tokens(old(messages)@) <= usize::MAX,
        contents_fit(old(messages)@),
    ensures
        final(messages)@ == slide(old(messages)@, max_tokens as nat),
        *final(state) == flag_truncation(*old(state), final(messages)@.len() < old(messages)@.len()),
{
    let ghost start = messages@;
    let mut removed = false;
    loop
        invariant
            slide(messages@, max_tokens as nat) == slide(start, max_tokens as nat),
            approx_tokens(messages@) <= usize::MAX,
            contents_fit(messages@),
            messages@.len() <= start.len(),
            removed == (messages@.len() < start.len()),
        ensures
            messages@ == slide(start, max_tokens as nat),
            removed == (messages@.len() < start.len()),
        decreases messages@.len(),
    {
        let est = estimate_tokens(messages.as_slice());
        if !(est > max_tokens && messages.len() > 1) {
            break;
        }
        match position_non_system(messages) {
            Some(idx) => {
                let ghost before = messages@;
                proof {
                    lemma_first_non_system(before);
                    lemma_remove_non_system(before, idx as int);
                    lemma_contents_fit_remove(before, idx as int);
                }
                messages.remove(idx);
                removed = true;
            },
            None => {
                break;
            },
        }
    }
    if removed {
        state.last_output_truncated = true;
    }
}

/// What the sliding window keeps of the system messages: all of them.
pub proof fn law_slide_keeps_system(msgs: Seq<Message>, max: nat)
    ensures
        system_msgs(slide(msgs, max)) == system_msgs(msgs),
    decreases msgs.len(),
{
    if approx_tokens(msgs) > max && msgs.len() > 1 && 0 <= first_non_system(msgs) < msgs.len() {
        lemma_first_non_system(msgs);
        lemma_remove_non_system(msgs, first_non_system(msgs));
        law_slide_keeps_system(msgs.remove(first_non_system(msgs)), max);
    }
}


// ---------------------------------------------------------------------------
// Rule-based compression
// ---------------------------------------------------------------------------

/// Number of non-system messages in `s`.
pub open spec fn ns_count(s: Seq<Message>) -> nat
    decreases s.len(),
{
    if s.len() == 0 {
        0
    } else {
        ns_count(s.drop_last()) + if is_system(s.last()) { 0nat } else { 1nat }
    }
}

/// A tool result: it answers a tool call or has the tool role.
pub open spec fn is_tool_message(m: Message) -> bool {
    m.tool_call_id is Some || m.role == MessageRole::Tool
}

/// Importance class of the non-system message at `i`, in removal order:
/// 0 for older user and assistant messages, 1 for older tool results, 2 for
/// the last `recent_count` non-system messages.
pub open spec fn removal_rank(s: Seq<Message>, recent_count: nat, i: int) -> nat {
    let recent_start = sat_sub(ns_count(s), recent_count);
    if ns_count(s.take(i)) >= recent_start {
        2
    } else if is_tool_message(s[i]) {
        1
    } else {
        0
    }
}

/// Removal flags chosen by the rule-based compressor: non-system messages
/// are visited by class (0, then 1, then 2) and, within a class, oldest
/// first; each visited message is flagged while the projected estimate
/// still exceeds `max`, the projection dropping by the message's cost.
pub open spec fn rule_scan(
    s: Seq<Message>,
    recent_count: nat,
    max: nat,
    r: nat,
    i: nat,
    projected: nat,
    flags: Seq<bool>,
) -> Seq<bool>
    decreases 3 - r, s.len() - i,
{
    if r >= 3 {
        flags
    } else if i >= s.len() {
        rule_scan(s, recent_count, max, r + 1, 0, projected, flags)
    } else if !is_system(s[i as int]) && removal_rank(s, recent_count, i as int) == r {
        if projected <= max {
            flags
        } else {
            rule_scan(
                s,
                recent_count,
                max,
                r,
                i + 1,
                sat_sub(projected, approx_message_tokens(s[i as int])),
                flags.update(i as int, true),
            )
        }
    } else {
        rule_scan(s, recent_count, max, r, i + 1, projected, flags)
    }
}

/// The messages of `s` whose flag is not set, in order.
pub open spec fn keep_unflagged(s: Seq<Message>, flags: Seq<bool>) -> Seq<Message>
    decreases s.len(),
{
    if s.len() == 0 {
        Seq::empty()
    } else if flags[s.len() - 1] {
        keep_unflagged(s.drop_last(), flags)
    } else {
        keep_unflagged(s.drop_last(), flags).push(s.last())
    }
}

/// No flags set.
pub open spec fn no_flags(n: nat) -> Seq<bool> {
    Seq::new(n, |i: int| false)
}

/// What the rule-based compressor leaves of `s` under a limit of `max`
/// tokens, protecting the last `recent_count` non-system messages longest.
pub open spec fn rule_prune(s: Seq<Message>, recent_count: nat, max: nat) -> Seq<Message> {
    if approx_tokens(s) <= max {
        s
    } else {
        keep_unflagged(s, rule_scan(s, recent_count, max, 0, 0, approx_tokens(s), no_flags(s.len())))
    }
}

/// Number of non-system messages of a list.
fn count_non_system(messages: &[Message]) -> (n: usize)
    ensures
        n == ns_count(messages@),
{
    let mut n: usize = 0;
    let mut i: usize = 0;
    while i < messages.len()
        invariant
            i <= messages@.len(),
            n == ns_count(messages@.take(i as int)),
            n <= i,
        decreases messages@.len() - i,
    {
        proof {
            assert(messages@.take(i as int + 1).drop_last() =~= messages@.take(i as int));
        }
        if messages[i].role != MessageRole::System {
            n = n + 1;
        }
        i = i + 1;
    }
    proof {
        assert(messages@.take(messages@.len() as int) =~= messages@);
    }
    n
}

/// Removal class of each message (3 for system messages).
fn removal_ranks(messages: &[Message], recent_count: usize) -> (r: Vec<u8>)
    ensures
        r@.len() == messages@.len(),
        forall|i: int| 0 <= i < messages@.len() ==> (#[trigger] r@[i] == 3) == is_system(messages@[i]),
        forall|i: int| 0 <= i < messages@.len() && !is_system(messages@[i])
            ==> r@[i] == removal_rank(messages@, recent_count as nat, i),
{
    let total = count_non_system(messages);
    let recent_start = if total > recent_count { total - recent_count } else { 0 };
    let mut ranks: Vec<u8> = Vec::new();
    let mut before: usize = 0;
    let mut i: usize = 0;
    while i < messages.len()
        invariant
            i <= messages@.len(),
            total == ns_count(messages@),
            recent_start == sat_sub(total as nat, recent_count as nat),
            before == ns_count(messages@.take(i as int)),
            before <= i,
            ranks@.len() == i,
            forall|k: int| 0 <= k < i ==> (#[trigger] ranks@[k] == 3) == is_system(messages@[k]),
            forall|k: int| 0 <= k < i && !is_system(messages@[k])
                ==> ranks@[k] == removal_rank(messages@, recent_count as nat, k),
        decreases messages@.len() - i,
    {
        proof {
            assert(messages@.take(i as int + 1).drop_last() =~= messages@.take(i as int));
        }
        let m = &messages[i];
        if m.role == MessageRole::System {
            ranks.push(3);
        } else {
            let rank: u8 = if before >= recent_start {
                2
            } else if m.tool_call_id.is_some() || m.role == MessageRole::Tool {
                1
            } else {
                0
            };
            ranks.push(rank);
            before = before + 1;
        }
        i = i + 1;
    }
    ranks
}

/// Clone of the messages whose flag is not set.
fn collect_unflagged(messages: &[Message], flags: &[bool]) -> (r: Vec<Message>)
    requires
        flags@.len() == messages@.len(),
    ensures
        r@ == keep_unflagged(messages@, flags@),
{
    let mut out: Vec<Message> = Vec::new();
    let mut i: usize = 0;
    while i < messages.len()
        invariant
            i <= messages@.len(),
            flags@.len() == messages@.len(),
            out@ == keep_unflagged(messages@.take(i as int), flags@),
        decreases messages@.len() - i,
    {
        proof {
            let t = messages@.take(i as int + 1);
            assert(t.drop_last() =~= messages@.take(i as int));
            assert(t.last() == messages@[i as int]);
        }
        if !flags[i] {
            out.push(messages[i].clone());
        }
        i = i + 1;
    }
    proof {
        assert(messages@.take(messages@.len() as int) =~= messages@);
    }
    out
}

/// Rule-based compression with a limit of `max_tokens`: when the estimate
/// exceeds the limit, removes the least important non-system messages first
/// (older user and assistant messages, then older tool results, then the
/// last `recent_count` messages), oldest first within a class, until the
/// projected estimate fits; raises the truncation flag if anything went.
pub fn rule_based_prune(
    messages: &mut Vec<Message>,
    max_tokens: usize,
    recent_count: usize,
    state: &mut AgentState,
)
    requires
        approx_tokens(old(messages)@) <= usize::MAX,
        contents_fit(old(messages)@),
    ensures
        final(messages)@ == rule_prune(old(messages)@, recent_count as nat, max_tokens as nat),
        *final(state) == flag_truncation(*old(state), final(messages)@.len() < old(messages)@.len()),
{
    let total = estimate_tokens(messages.as_slice());
    if total <= max_tokens {
        return;
    }
    let ghost s = messages@;
    let ghost rc = recent_count as nat;
    let ghost mx = max_tokens as nat;
    let n = messages.len();
    let ranks = removal_ranks(messages.as_slice(), recent_count);
    let mut flags: Vec<bool> = Vec::new();
    let mut k: usize = 0;
    while k < n
        invariant
            k <= n == s.len(),
            flags@ == no_flags(k as nat),
        decreases n - k,
    {
        flags.push(false);
        proof {
            assert(flags@ =~= no_flags(k as nat + 1));
        }
        k = k + 1;
    }
    let mut projected = total;
    let mut stop = false;
    let mut r: u8 = 0;
    while r < 3 && !stop
        invariant
            n == s.len() == messages@.len(),
            messages@ == s,
            ranks@.len() == n,
            forall|i: int| 0 <= i < n ==> (#[trigger] ranks@[i] == 3) == is_system(s[i]),
            forall|i: int| 0 <= i < n && !is_system(s[i]) ==> ranks@[i] == removal_rank(s, rc, i),
            r <= 3,
            contents_fit(s),
            mx == max_tokens as nat,
            rc == recent_count as nat,
            flags@.len() == n,
            rule_scan(s, rc, mx, 0, 0, total as nat, no_flags(n as nat))
                == (if stop { flags@ } else { rule_scan(s, rc, mx, r as nat, 0, projected as nat, flags@) }),
        decreases 3 - r, (if stop { 0int } else { 1int }),
    {
        let mut i: usize = 0;
        while i < n && !stop
            invariant
                n == s.len() == messages@.len(),
                messages@ == s,
                ranks@.len() == n,
                forall|j: int| 0 <= j < n ==> (#[trigger] ranks@[j] == 3) == is_system(s[j]),
                forall|j: int| 0 <= j < n && !is_system(s[j]) ==> ranks@[j] == removal_rank(s, rc, j),
                r < 3,
                i <= n,
                flags@.len() == n,
                contents_fit(s),
                mx == max_tokens as nat,
                rc == recent_count as nat,
                rule_scan(s, rc, mx, 0, 0, total as nat, no_flags(n as nat))
                    == (if stop { flags@ } else { rule_scan(s, rc, mx, r as nat, i as nat, projected as nat, flags@) }),
            decreases (n - i) as int + (if stop { 0int } else { 1int }),
        {
            let ghost fl0 = flags@;
            let ghost p0 = projected as nat;
            let ghost i0 = i as nat;
            if ranks[i] == r {
                proof {
                    assert(ranks@[i as int] != 3);
                    assert(!is_system(s[i as int]));
                    assert(removal_rank(s, rc, i as int) == r as nat);
                }
                if projected <= max_tokens {
                    stop = true;
                    proof {
                        assert(rule_scan(s, rc, mx, r as nat, i0, p0, fl0) == fl0);
                    }
                } else {
                    let cost = content_byte_len(&messages[i]) / 4 + 1;
                    flags.set(i, true);
                    projected = if projected > cost { projected - cost } else { 0 };
                    i = i + 1;
                    proof {
                        assert(cost == approx_message_tokens(s[i0 as int]));
                        assert(flags@ == fl0.update(i0 as int, true));
                        assert(projected as nat == sat_sub(p0, approx_message_tokens(s[i0 as int])));
                        assert(rule_scan(s, rc, mx, r as nat, i0, p0, fl0)
                            == rule_scan(s, rc, mx, r as nat, i0 + 1, projected as nat, flags@));
                    }
                }
            } else {
                proof {
                    if !is_system(s[i as int]) {
                        assert(ranks@[i as int] == removal_rank(s, rc, i as int));
                    }
                    assert(rule_scan(s, rc, mx, r as nat, i0, p0, fl0)
                        == rule_scan(s, rc, mx, r as nat, i0 + 1, p0, fl0));
                }
                i = i + 1;
            }
        }
        if !stop {
            r = r + 1;
        }
    }
    let kept = collect_unflagged(messages.as_slice(), flags.as_slice());
    let removed = kept.len() < n;
    *messages = kept;
    if removed {
        state.last_output_truncated = true;
    }
}

proof fn lemma_rule_scan_spares_system(
    s: Seq<Message>,
    rc: nat,
    max: nat,
    r: nat,
    i: nat,
    projected: nat,
    flags: Seq<bool>,
)
    requires
        flags.len() == s.len(),
        forall|j: int| 0 <= j < s.len() && is_system(s[j]) ==> !#[trigger] flags[j],
    ensures
        rule_scan(s, rc, max, r, i, projected, flags).len() == s.len(),
        forall|j: int| 0 <= j < s.len() && is_system(s[j])
            ==> !#[trigger] rule_scan(s, rc, max, r, i, projected, flags)[j],
    decreases 3 - r, s.len() - i,
{
    if r >= 3 {
    } else if i >= s.len() {
        lemma_rule_scan_spares_system(s, rc, max, r + 1, 0, projected, flags);
    } else if !is_system(s[i as int]) && removal_rank(s, rc, i as int) == r {
        if projected > max {
            let f2 = flags.update(i as int, true);
            assert forall|j: int| 0 <= j < s.len() && is_system(s[j]) implies !#[trigger] f2[j] by {
                assert(j != i);
            }
            lemma_rule_scan_spares_system(
                s,
                rc,
                max,
                r,
                i + 1,
                sat_sub(projected, approx_message_tokens(s[i as int])),
                f2,
            );
        }
    } else {
        lemma_rule_scan_spares_system(s, rc, max, r, i + 1, projected, flags);
    }
}

proof fn lemma_keep_unflagged_system(s: Seq<Message>, flags: Seq<bool>)
    requires
        flags.len() >= s.len(),
        forall|j: int| 0 <= j < s.len() && is_system(s[j]) ==> !#[trigger] flags[j],
    ensures
        system_msgs(keep_unflagged(s, flags)) == system_msgs(s),
    decreases s.len(),
{
    if s.len() > 0 {
        let d = s.drop_last();
        assert forall|j: int| 0 <= j < d.len() && is_system(d[j]) implies !#[trigger] flags[j] by {
            assert(d[j] == s[j]);
        }
        lemma_keep_unflagged_system(d, flags);
        let k = keep_unflagged(d, flags);
        if !flags[s.len() - 1] {
            assert(k.push(s.last()).drop_last() =~= k);
        }
    }
}

/// The rule-based compressor keeps every system message, in order.
pub proof fn law_rule_prune_keeps_system(s: Seq<Message>, recent_count: nat, max: nat)
    ensures
        system_msgs(rule_prune(s, recent_count, max)) == system_msgs(s),
{
    if approx_tokens(s) > max {
        let f0 = no_flags(s.len());
        lemma_rule_scan_spares_system(s, recent_count, max, 0, 0, approx_tokens(s), f0);
        lemma_keep_unflagged_system(s, rule_scan(s, recent_count, max, 0, 0, approx_tokens(s), f0));
    }
}

proof fn lemma_keep_unflagged_same(s: Seq<Message>, f1: Seq<bool>, f2: Seq<bool>)
    requires
        f1.len() >= s.len(),
        f2.len() >= s.len(),
        forall|j: int| 0 <= j < s.len() ==> f1[j] == f2[j],
    ensures
        keep_unflagged(s, f1) == keep_unflagged(s, f2),
    decreases s.len(),
{
    if s.len() > 0 {
        lemma_keep_unflagged_same(s.drop_last(), f1, f2);
    }
}

proof fn lemma_keep_unflagged_all(s: Seq<Message>, flags: Seq<bool>)
    requires
        flags.len() >= s.len(),
        forall|j: int| 0 <= j < s.len() ==> !#[trigger] flags[j],
    ensures
        keep_unflagged(s, flags) == s,
    decreases s.len(),
{
    if s.len() > 0 {
        lemma_keep_unflagged_all(s.drop_last(), flags);
        assert(s.drop_last().push(s.last()) =~= s);
    }
}

/// Flagging one more message lowers the estimate of what is kept by that
/// message's cost.
proof fn lemma_flag_one(s: Seq<Message>, flags: Seq<bool>, i: int)
    requires
        flags.len() == s.len(),
        0 <= i < s.len(),
        !flags[i],
    ensures
        approx_tokens(keep_unflagged(s, flags.update(i, true))) + approx_message_tokens(s[i])
            == approx_tokens(keep_unflagged(s, flags)),
    decreases s.len(),
{
    let n = s.len() as int;
    let d = s.drop_last();
    let f2 = flags.update(i, true);
    let k1 = keep_unflagged(d, flags);
    if i == n - 1 {
        lemma_keep_unflagged_same(d, f2, flags);
        assert(k1.push(s.last()).drop_last() =~= k1);
    } else {
        lemma_flag_one(d.push(s.last()).drop_last(), flags.take(n - 1), i);
        assert(d.push(s.last()).drop_last() =~= d);
        lemma_keep_unflagged_same(d, flags.take(n - 1), flags);
        lemma_keep_unflagged_same(d, flags.take(n - 1).update(i, true), f2);
        let k2 = keep_unflagged(d, f2);
        if !flags[n - 1] {
            assert(k1.push(s.last()).drop_last() =~= k1);
            assert(k2.push(s.last()).drop_last() =~= k2);
        }
    }
}

/// When every non-system message is flagged, only system messages are kept.
proof fn lemma_keep_unflagged_only_system(s: Seq<Message>, flags: Seq<bool>)
    requires
        flags.len() >= s.len(),
        forall|j: int| 0 <= j < s.len() && !is_system(s[j]) ==> #[trigger] flags[j],
    ensures
        forall|j: int| 0 <= j < keep_unflagged(s, flags).len()
            ==> is_system(#[trigger] keep_unflagged(s, flags)[j]),
    decreases s.len(),
{
    if s.len() > 0 {
        let d = s.drop_last();
        assert forall|j: int| 0 <= j < d.len() && !is_system(d[j]) implies #[trigger] flags[j] by {
            assert(d[j] == s[j]);
        }
        lemma_keep_unflagged_only_system(d, flags);
        let k = keep_unflagged(d, flags);
        if !flags[s.len() - 1] {
            assert forall|j: int| 0 <= j < k.push(s.last()).len() implies is_system(#[trigger] k.push(s.last())[j]) by {
                if j < k.len() {
                    assert(k.push(s.last())[j] == k[j]);
                }
            }
        }
    }
}

proof fn lemma_rule_scan_fits(
    s: Seq<Message>,
    rc: nat,
    max: nat,
    r: nat,
    i: nat,
    projected: nat,
    flags: Seq<bool>,
)
    requires
        r <= 3,
        flags.len() == s.len(),
        projected == approx_tokens(keep_unflagged(s, flags)),
        forall|k: int| 0 <= k < s.len() && #[trigger] flags[k] ==> !is_system(s[k])
            && (removal_rank(s, rc, k) < r || (removal_rank(s, rc, k) == r && k < i)),
        forall|k: int| 0 <= k < s.len() && !is_system(s[k])
            && (removal_rank(s, rc, k) < r || (removal_rank(s, rc, k) == r && k < i)) ==> #[trigger] flags[k],
    ensures
        ({
            let f = rule_scan(s, rc, max, r, i, projected, flags);
            &&& f.len() == s.len()
            &&& (approx_tokens(keep_unflagged(s, f)) <= max
                || forall|k: int| 0 <= k < s.len() && !is_system(s[k]) ==> #[trigger] f[k])
        }),
    decreases 3 - r, s.len() - i,
{
    if r >= 3 {
        assert forall|k: int| 0 <= k < s.len() && !is_system(s[k]) implies #[trigger] flags[k] by {
            assert(removal_rank(s, rc, k) <= 2);
        }
    } else if i >= s.len() {
        lemma_rule_scan_fits(s, rc, max, r + 1, 0, projected, flags);
    } else if !is_system(s[i as int]) && removal_rank(s, rc, i as int) == r {
        if projected > max {
            let f2 = flags.update(i as int, true);
            lemma_flag_one(s, flags, i as int);
            let p2 = sat_sub(projected, approx_message_tokens(s[i as int]));
            assert(p2 == approx_tokens(keep_unflagged(s, f2)));
            lemma_rule_scan_fits(s, rc, max, r, i + 1, p2, f2);
        }
    } else {
        lemma_rule_scan_fits(s, rc, max, r, i + 1, projected, flags);
    }
}

/// The rule-based compressor stops only when the estimate fits or only
/// system messages are left.
pub proof fn law_rule_prune_fits(s: Seq<Message>, recent_count: nat, max: nat)
    ensures
        ({
            let r = rule_prune(s, recent_count, max);
            approx_tokens(r) <= max || forall|i: int| 0 <= i < r.len() ==> is_system(#[trigger] r[i])
        }),
{
    if approx_tokens(s) > max {
        let f0 = no_flags(s.len());
        lemma_keep_unflagged_all(s, f0);
        lemma_rule_scan_fits(s, recent_count, max, 0, 0, approx_tokens(s), f0);
        let f = rule_scan(s, recent_count, max, 0, 0, approx_tokens(s), f0);
        if approx_tokens(keep_unflagged(s, f)) > max {
            lemma_keep_unflagged_only_system(s, f);
        }
    }
}


/// Whether the message at `j` is among the last `recent_count` non-system
/// messages of `s` (counting it, at most `recent_count` non-system messages
/// start at `j` or later).
pub open spec fn among_last_non_system(s: Seq<Message>, recent_count: nat, j: int) -> bool {
    !is_system(s[j]) && ns_count(s.skip(j)) <= recent_count
}

proof fn lemma_ns_count_concat(a: Seq<Message>, b: Seq<Message>)
    ensures
        ns_count(a + b) == ns_count(a) + ns_count(b),
    decreases b.len(),
{
    if b.len() == 0 {
        assert(a + b =~= a);
    } else {
        lemma_ns_count_concat(a, b.drop_last());
        assert((a + b).drop_last() =~= a + b.drop_last());
        assert((a + b).last() == b.last());
    }
}

/// Whether the scan that reached class `r`, position `i` has flagged the
/// message at `k`.
spec fn scanned_before(s: Seq<Message>, rc: nat, r: nat, i: nat, k: int) -> bool {
    !is_system(s[k]) && (removal_rank(s, rc, k) < r || (removal_rank(s, rc, k) == r && k < i))
}

/// The scan visits `j` no later than `k`.
spec fn scan_le(s: Seq<Message>, rc: nat, j: int, k: int) -> bool {
    removal_rank(s, rc, j) < removal_rank(s, rc, k) || (removal_rank(s, rc, j) == removal_rank(s, rc, k) && j <= k)
}

/// The rule scan flags exactly the non-system messages before the point
/// where it stops, in its order of classes, then positions; the last one it
/// flagged was flagged while the estimate of what it keeps still exceeded
/// the limit.
proof fn lemma_rule_scan_stops(
    s: Seq<Message>,
    rc: nat,
    max: nat,
    r: nat,
    i: nat,
    projected: nat,
    flags: Seq<bool>,
    last: int,
) -> (stop: (nat, nat, int))
    requires
        r <= 3,
        flags.len() == s.len(),
        projected == approx_tokens(keep_unflagged(s, flags)),
        forall|k: int| 0 <= k < s.len() ==> (#[trigger] flags[k] <==> scanned_before(s, rc, r, i, k)),
        last == -1 ==> forall|k: int| 0 <= k < s.len() ==> !#[trigger] flags[k],
        last != -1 ==> {
            &&& 0 <= last < s.len()
            &&& flags[last]
            &&& projected + approx_message_tokens(s[last]) > max
            &&& forall|k: int| 0 <= k < s.len() && #[trigger] flags[k] ==> scan_le(s, rc, k, last)
        },
    ensures
        ({
            let f = rule_scan(s, rc, max, r, i, projected, flags);
            &&& f.len() == s.len()
            &&& forall|k: int| 0 <= k < s.len() ==> (#[trigger] f[k] <==> scanned_before(s, rc, stop.0, stop.1, k))
            &&& stop.2 == -1 ==> forall|k: int| 0 <= k < s.len() ==> !#[trigger] f[k]
            &&& stop.2 != -1 ==> {
                &&& 0 <= stop.2 < s.len()
                &&& f[stop.2]
                &&& approx_tokens(keep_unflagged(s, f)) + approx_message_tokens(s[stop.2]) > max
                &&& forall|k: int| 0 <= k < s.len() && #[trigger] f[k] ==> scan_le(s, rc, k, stop.2)
            }
        }),
    decreases 3 - r, s.len() - i,
{
    if r >= 3 {
        (r, i, last)
    } else if i >= s.len() {
        assert forall|k: int| 0 <= k < s.len() implies (#[trigger] flags[k] <==> scanned_before(s, rc, r + 1, 0, k)) by {
            assert(flags[k] <==> scanned_before(s, rc, r, i, k));
        }
        lemma_rule_scan_stops(s, rc, max, r + 1, 0, projected, flags, last)
    } else if !is_system(s[i as int]) && removal_rank(s, rc, i as int) == r {
        if projected <= max {
            (r, i, last)
        } else {
            let f2 = flags.update(i as int, true);
            assert(!flags[i as int]);
            assert forall|k: int| 0 <= k < s.len() implies (#[trigger] f2[k] <==> scanned_before(s, rc, r, i + 1, k)) by {
                if k != i {
                    assert(flags[k] <==> scanned_before(s, rc, r, i, k));
                }
            }
            lemma_flag_one(s, flags, i as int);
            let p2 = sat_sub(projected, approx_message_tokens(s[i as int]));
            assert(p2 == approx_tokens(keep_unflagged(s, f2)));
            assert forall|k: int| 0 <= k < s.len() && #[trigger] f2[k] implies scan_le(s, rc, k, i as int) by {
                if k != i {
                    assert(flags[k] <==> scanned_before(s, rc, r, i, k));
                }
            }
            lemma_rule_scan_stops(s, rc, max, r, i + 1, p2, f2, i as int)
        }
    } else {
        assert forall|k: int| 0 <= k < s.len() implies (#[trigger] flags[k] <==> scanned_before(s, rc, r, i + 1, k)) by {
            assert(flags[k] <==> scanned_before(s, rc, r, i, k));
        }
        lemma_rule_scan_stops(s, rc, max, r, i + 1, projected, flags, last)
    }
}

/// The importance of the non-system message at `k` in the rule-based
/// compressor's documented order, lowest first: older user and assistant
/// messages (0), older tool results (1), the last `recent_count`
/// non-system messages (2).
pub open spec fn importance(s: Seq<Message>, recent_count: nat, k: int) -> nat {
    if among_last_non_system(s, recent_count, k) {
        2
    } else if s[k].tool_call_id is Some || s[k].role == MessageRole::Tool {
        1
    } else {
        0
    }
}

/// Whether the message at `j` goes no later than the one at `k`: it is
/// less important, or as important and not newer.
pub open spec fn goes_before(s: Seq<Message>, recent_count: nat, j: int, k: int) -> bool {
    importance(s, recent_count, j) < importance(s, recent_count, k)
        || (importance(s, recent_count, j) == importance(s, recent_count, k) && j <= k)
}

/// The rule-based compressor only deletes messages, never a system message,
/// and deletes them in order of importance: older user and assistant
/// messages first, then older tool results, then the last `recent_count`
/// non-system messages, oldest first within each class. So a deleted
/// message means every non-system message before it in that order is gone
/// too (while any older message is kept, all of the last `recent_count` are
/// kept), and it stops as soon as the estimate fits: the estimate of what it
/// keeps plus the last message it deleted exceeds the limit.
pub proof fn law_rule_prune_protects_recent(s: Seq<Message>, recent_count: nat, max: nat)
    ensures
        exists|removed: Seq<bool>|
            #![trigger keep_unflagged(s, removed)]
        {
            &&& removed.len() == s.len()
            &&& rule_prune(s, recent_count, max) == keep_unflagged(s, removed)
            &&& forall|j: int| 0 <= j < s.len() && #[trigger] removed[j] ==> !is_system(s[j])
            &&& forall|j: int, k: int|
                #![trigger removed[j], removed[k]]
                0 <= j < s.len() && 0 <= k < s.len() && removed[k] && !is_system(s[j])
                && goes_before(s, recent_count, j, k) ==> removed[j]
            &&& forall|k: int|
                0 <= k < s.len() && #[trigger] removed[k]
                && (forall|j: int| 0 <= j < s.len() && #[trigger] removed[j] ==> goes_before(s, recent_count, j, k))
                ==> approx_tokens(keep_unflagged(s, removed)) + approx_message_tokens(s[k]) > max
        },
{
    let f0 = no_flags(s.len());
    if approx_tokens(s) <= max {
        lemma_keep_unflagged_all(s, f0);
        assert(rule_prune(s, recent_count, max) == keep_unflagged(s, f0));
        assert(forall|j: int| 0 <= j < s.len() ==> !#[trigger] f0[j]);
    } else {
        lemma_keep_unflagged_all(s, f0);
        assert forall|k: int| 0 <= k < s.len() implies (#[trigger] f0[k] <==> scanned_before(s, recent_count, 0, 0, k)) by {
        }
        let stop = lemma_rule_scan_stops(s, recent_count, max, 0, 0, approx_tokens(s), f0, -1);
        let f = rule_scan(s, recent_count, max, 0, 0, approx_tokens(s), f0);
        assert forall|k: int| 0 <= k < s.len() && !is_system(s[k])
            implies #[trigger] removal_rank(s, recent_count, k) == importance(s, recent_count, k) by {
            lemma_ns_count_concat(s.take(k), s.skip(k));
            assert(s.take(k) + s.skip(k) =~= s);
        }
        assert forall|j: int, k: int|
            #![trigger f[j], f[k]]
            0 <= j < s.len() && 0 <= k < s.len() && f[k] && !is_system(s[j])
            && goes_before(s, recent_count, j, k) implies f[j] by {
            assert(f[k] <==> scanned_before(s, recent_count, stop.0, stop.1, k));
            assert(f[j] <==> scanned_before(s, recent_count, stop.0, stop.1, j));
            assert(removal_rank(s, recent_count, k) == importance(s, recent_count, k));
            assert(removal_rank(s, recent_count, j) == importance(s, recent_count, j));
        }
        assert forall|j: int| 0 <= j < s.len() && #[trigger] f[j] implies !is_system(s[j]) by {
            assert(f[j] <==> scanned_before(s, recent_count, stop.0, stop.1, j));
        }
        assert forall|k: int|
            0 <= k < s.len() && #[trigger] f[k]
            && (forall|j: int| 0 <= j < s.len() && #[trigger] f[j] ==> goes_before(s, recent_count, j, k))
            implies approx_tokens(keep_unflagged(s, f)) + approx_message_tokens(s[k]) > max by {
            let l = stop.2;
            assert(l != -1);
            assert(scan_le(s, recent_count, k, l));
            assert(goes_before(s, recent_count, l, k));
            assert(f[k] <==> scanned_before(s, recent_count, stop.0, stop.1, k));
            assert(f[l] <==> scanned_before(s, recent_count, stop.0, stop.1, l));
            assert(removal_rank(s, recent_count, k) == importance(s, recent_count, k));
            assert(removal_rank(s, recent_count, l) == importance(s, recent_count, l));
            assert(k == l);
        }
        assert(rule_prune(s, recent_count, max) == keep_unflagged(s, f));
    }
}

// ---------------------------------------------------------------------------
// LLM summarisation
// ---------------------------------------------------------------------------

/// A role as its debug form prints it.
pub open spec fn role_debug(r: MessageRole) -> Seq<char> {
    match r {
        MessageRole::System => "System"@,
        MessageRole::User => "User"@,
        MessageRole::Assistant => "Assistant"@,
        MessageRole::Tool => "Tool"@,
    }
}

fn role_debug_str(r: MessageRole) -> (s: &'static str)
    ensures
        s@ == role_debug(r),
{
    match r {
        MessageRole::System => "System",
        MessageRole::User => "User",
        MessageRole::Assistant => "Assistant",
        MessageRole::Tool => "Tool",
    }
}

/// One line of the text to summarise: `"{role:?}: {content}"`.
pub open spec fn summary_line(m: Message) -> Seq<char> {
    role_debug(m.role) + ": "@ + m.content@
}

/// The lines of `ms` joined with newlines.
pub open spec fn summary_text(ms: Seq<Message>) -> Seq<char>
    decreases ms.len(),
{
    if ms.len() == 0 {
        Seq::empty()
    } else if ms.len() == 1 {
        summary_line(ms[0])
    } else {
        summary_text(ms.drop_last()) + "\n"@ + summary_line(ms.last())
    }
}

/// The non-system messages that a summary replaces: all but the last
/// `keep_recent`.
pub open spec fn summarised_part(s: Seq<Message>, keep_recent: nat) -> Seq<Message> {
    let ns = non_system_msgs(s);
    ns.take(ns.len() - keep_recent)
}

/// The non-system messages kept verbatim: the last `keep_recent`.
pub open spec fn recent_part(s: Seq<Message>, keep_recent: nat) -> Seq<Message> {
    let ns = non_system_msgs(s);
    ns.skip(ns.len() - keep_recent)
}

/// Whether the LLM compressor summarises `s` under a limit of `max`
/// tokens: the estimate exceeds the limit and there are more than
/// `keep_recent` non-system messages.
pub open spec fn needs_summary(s: Seq<Message>, max: nat, keep_recent: nat) -> bool {
    approx_tokens(s) > max && non_system_msgs(s).len() > keep_recent
}

/// The non-system messages of a list, cloned.
fn collect_non_system(messages: &[Message]) -> (r: Vec<Message>)
    ensures
        r@ == non_system_msgs(messages@),
{
    let mut out: Vec<Message> = Vec::new();
    let mut i: usize = 0;
    while i < messages.len()
        invariant
            i <= messages@.len(),
            out@ == non_system_msgs(messages@.take(i as int)),
        decreases messages@.len() - i,
    {
        proof {
            let t = messages@.take(i as int + 1);
            assert(t.drop_last() =~= messages@.take(i as int));
            assert(t.last() == messages@[i as int]);
        }
        if messages[i].role != MessageRole::System {
            out.push(messages[i].clone());
        }
        i = i + 1;
    }
    proof {
        assert(messages@.take(messages@.len() as int) =~= messages@);
    }
    out
}

/// The system messages of a list, cloned.
fn collect_system(messages: &[Message]) -> (r: Vec<Message>)
    ensures
        r@ == system_msgs(messages@),
{
    let mut out: Vec<Message> = Vec::new();
    let mut i: usize = 0;
    while i < messages.len()
        invariant
            i <= messages@.len(),
            out@ == system_msgs(messages@.take(i as int)),
        decreases messages@.len() - i,
    {
        proof {
            let t = messages@.take(i as int + 1);
            assert(t.drop_last() =~= messages@.take(i as int));
            assert(t.last() == messages@[i as int]);
        }
        if messages[i].role == MessageRole::System {
            out.push(messages[i].clone());
        }
        i = i + 1;
    }
    proof {
        assert(messages@.take(messages@.len() as int) =~= messages@);
    }
    out
}

/// The text an LLM is asked to summarise, when the LLM compressor acts on
/// `messages` under a limit of `max_tokens`: `None` when the estimate fits or
/// there are no more than `keep_recent` non-system messages; otherwise the
/// older non-system messages, one `"{role:?}: {content}"` line each.
pub fn summary_input(messages: &[Message], max_tokens: usize, keep_recent: usize) -> (r: Option<String>)
    requires
        approx_tokens(messages@) <= usize::MAX,
        contents_fit(messages@),
    ensures
        r is Some <==> needs_summary(messages@, max_tokens as nat, keep_recent as nat),
        r matches Some(t) ==> t@ == summary_text(summarised_part(messages@, keep_recent as nat)),
{
    if estimate_tokens(messages) <= max_tokens {
        return None;
    }
    let ns = collect_non_system(messages);
    if ns.len() <= keep_recent {
        return None;
    }
    let split = ns.len() - keep_recent;
    let ghost part = ns@.take(split as int);
    let mut text = String::new();
    let mut i: usize = 0;
    while i < split
        invariant
            i <= split <= ns@.len(),
            part == ns@.take(split as int),
            text@ == summary_text(part.take(i as int)),
        decreases split - i,
    {
        proof {
            let t = part.take(i as int + 1);
            assert(t.drop_last() =~= part.take(i as int));
            assert(t.last() == ns@[i as int]);
            if i == 0 {
                assert(t.len() == 1);
                assert(t[0] == ns@[0]);
            }
        }
        let ghost before = text@;
        if i > 0 {
            push_str(&mut text, "\n");
        }
        push_str(&mut text, role_debug_str(ns[i].role));
        push_str(&mut text, ": ");
        push_str(&mut text, ns[i].content.as_str());
        proof {
            let line = summary_line(ns@[i as int]);
            if i == 0 {
                assert(before =~= Seq::<char>::empty());
                assert(text@ =~= line);
            } else {
                assert(text@ =~= before + "\n"@ + line);
            }
        }
        i = i + 1;
    }
    proof {
        assert(part.take(split as int) =~= part);
    }
    Some(text)
}

/// What replaces the summary when the LLM call fails:
/// `"{n} earlier messages were removed to save context space."`.
pub fn fallback_summary(summarised_count: usize) -> (r: String)
    ensures
        r@ == decimal(summarised_count as nat) + " earlier messages were removed to save context space."@,
{
    let mut s = String::new();
    push_decimal(&mut s, summarised_count as u128);
    push_str(&mut s, " earlier messages were removed to save context space.");
    proof {
        assert(Seq::<char>::empty() + decimal(summarised_count as nat) =~= decimal(summarised_count as nat));
    }
    s
}

/// Rebuild `messages` as its system messages, then an assistant message
/// `"[Context Summary] {summary}"`, then the last `keep_recent` non-system
/// messages; raises the truncation flag.
pub fn apply_summary(messages: &mut Vec<Message>, keep_recent: usize, summary: &str, state: &mut AgentState)
    requires
        non_system_msgs(old(messages)@).len() > keep_recent,
    ensures
        ({
            let sys = system_msgs(old(messages)@);
            let recent = recent_part(old(messages)@, keep_recent as nat);
            let r = final(messages)@;
            &&& r.len() == sys.len() + 1 + recent.len()
            &&& r.take(sys.len() as int) == sys
            &&& r[sys.len() as int].role == MessageRole::Assistant
            &&& r[sys.len() as int].content@ == "[Context Summary] "@ + summary@
            &&& r[sys.len() as int].tool_call_id is None
            &&& r.skip(sys.len() + 1int) == recent
        }),
        *final(state) == flag_truncation(*old(state), true),
{
    let sys = collect_system(messages.as_slice());
    let ns = collect_non_system(messages.as_slice());
    let split = ns.len() - keep_recent;
    let mut content = String::new();
    push_str(&mut content, "[Context Summary] ");
    push_str(&mut content, summary);
    let mut out: Vec<Message> = sys;
    out.push(Message { role: MessageRole::Assistant, content, tool_call_id: None });
    let ghost head = out@;
    let mut i: usize = split;
    while i < ns.len()
        invariant
            split <= i <= ns@.len(),
            out@ == head + ns@.subrange(split as int, i as int),
        decreases ns@.len() - i,
    {
        out.push(ns[i].clone());
        proof {
            assert(head + ns@.subrange(split as int, i as int + 1)
                =~= (head + ns@.subrange(split as int, i as int)).push(ns@[i as int]));
        }
        i = i + 1;
    }
    proof {
        assert(Seq::<char>::empty() + "[Context Summary] "@ + summary@ =~= "[Context Summary] "@ + summary@);
        assert(out@.take(head.len() - 1) =~= head.take(head.len() - 1));
        assert(out@.skip(head.len() as int) =~= ns@.skip(split as int));
    }
    *messages = out;
    state.last_output_truncated = true;
}

/// The summary replaces exactly the older non-system messages: the messages
/// whose lines make up the text to summarise, followed by the messages kept
/// verbatim after the summary, are the non-system messages in order; the
/// text covers `non-system count - keep_recent` messages, and the last
/// `keep_recent` are kept verbatim and not summarised.
pub proof fn law_summary_replaces_older(s: Seq<Message>, keep_recent: nat)
    requires
        non_system_msgs(s).len() > keep_recent,
    ensures
        summarised_part(s, keep_recent) + recent_part(s, keep_recent) == non_system_msgs(s),
        summarised_part(s, keep_recent).len() == non_system_msgs(s).len() - keep_recent,
        recent_part(s, keep_recent).len() == keep_recent,
{
    let ns = non_system_msgs(s);
    assert(ns.take(ns.len() - keep_recent) + ns.skip(ns.len() - keep_recent) =~= ns);
}

/// The LLM compressor keeps every system message, in order.
pub proof fn law_summary_keeps_system(s: Seq<Message>, keep_recent: nat, summary: Message)
    requires
        summary.role == MessageRole::Assistant,
        non_system_msgs(s).len() > keep_recent,
    ensures
        system_msgs(system_msgs(s) + seq![summary] + recent_part(s, keep_recent)) == system_msgs(s),
{
    lemma_system_msgs_only(s);
    lemma_non_system_only(s);
    let recent = recent_part(s, keep_recent);
    lemma_no_system_in(non_system_msgs(s), recent, (non_system_msgs(s).len() - keep_recent) as int);
    lemma_system_msgs_concat(system_msgs(s) + seq![summary], recent);
    lemma_system_msgs_concat(system_msgs(s), seq![summary]);
    lemma_single(summary);
    assert(system_msgs(s) + Seq::<Message>::empty() + Seq::<Message>::empty() =~= system_msgs(s));
}

proof fn lemma_system_msgs_only(s: Seq<Message>)
    ensures
        system_msgs(system_msgs(s)) == system_msgs(s),
        forall|j: int| 0 <= j < system_msgs(s).len() ==> is_system(#[trigger] system_msgs(s)[j]),
    decreases s.len(),
{
    if s.len() > 0 {
        lemma_system_msgs_only(s.drop_last());
        let d = system_msgs(s.drop_last());
        if is_system(s.last()) {
            assert(d.push(s.last()).drop_last() =~= d);
            assert forall|j: int| 0 <= j < d.push(s.last()).len() implies is_system(#[trigger] d.push(s.last())[j]) by {
                if j < d.len() {
                    assert(d.push(s.last())[j] == d[j]);
                }
            }
        }
    }
}

proof fn lemma_non_system_only(s: Seq<Message>)
    ensures
        forall|j: int| 0 <= j < non_system_msgs(s).len() ==> !is_system(#[trigger] non_system_msgs(s)[j]),
    decreases s.len(),
{
    if s.len() > 0 {
        lemma_non_system_only(s.drop_last());
        let d = non_system_msgs(s.drop_last());
        if !is_system(s.last()) {
            assert forall|j: int| 0 <= j < d.push(s.last()).len() implies !is_system(#[trigger] d.push(s.last())[j]) by {
                if j < d.len() {
                    assert(d.push(s.last())[j] == d[j]);
                }
            }
        }
    }
}

proof fn lemma_no_system_in(ns: Seq<Message>, tail: Seq<Message>, k: int)
    requires
        0 <= k <= ns.len(),
        tail == ns.skip(k),
        forall|j: int| 0 <= j < ns.len() ==> !is_system(#[trigger] ns[j]),
    ensures
        system_msgs(tail) == Seq::<Message>::empty(),
    decreases tail.len(),
{
    if tail.len() > 0 {
        assert(tail.drop_last() =~= ns.drop_last().skip(k));
        assert(tail.last() == ns[ns.len() - 1]);
        lemma_no_system_in(ns.drop_last(), tail.drop_last(), k);
    }
}

/// The sliding window stops only when the estimate fits, at most one
/// message is left, or only system messages are left.
pub proof fn law_slide_fits(msgs: Seq<Message>, max: nat)
    ensures
        ({
            let r = slide(msgs, max);
            approx_tokens(r) <= max || r.len() <= 1 || forall|i: int| 0 <= i < r.len() ==> is_system(#[trigger] r[i])
        }),
    decreases msgs.len(),
{
    lemma_first_non_system(msgs);
    if approx_tokens(msgs) > max && msgs.len() > 1 && 0 <= first_non_system(msgs) < msgs.len() {
        law_slide_fits(msgs.remove(first_non_system(msgs)), max);
    }
}

} // verus!
