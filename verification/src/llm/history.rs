//! Conversation history with role-alternation rules and token-budget-aware
//! truncation.
use vstd::prelude::*;

use crate::llm::types::{text_of, ChatMessage, MessageRole};
use crate::text::push_str;

verus! {

// ── Token estimation ──────────────────────────────────

/// Estimated token count of a text of `n` characters: one token per four
/// characters, rounded up.
pub open spec fn tokens_for_len(n: int) -> int {
    (n + 3) / 4
}

/// Estimate the number of tokens in `text` (one token per four characters,
/// rounded up).
pub fn estimate_tokens(text: &str) -> (n: usize)
    ensures
        n as int == tokens_for_len(text@.len() as int),
{
    let v = crate::text::chars_of(text);
    v.len() / 4 + (if v.len() % 4 == 0 {
        0
    } else {
        1
    })
}

/// A token budget: a fixed limit and the amount reserved so far.
#[derive(Debug)]
pub struct TokenBudget {
    limit: u32,
    used: u32,
}

impl TokenBudget {
    /// The budget's limit.
    pub closed spec fn limit_of(&self) -> nat {
        self.limit as nat
    }

    /// The amount reserved so far.
    pub closed spec fn used_of(&self) -> nat {
        self.used as nat
    }

    /// Reservations never exceed the limit.
    pub closed spec fn wf(&self) -> bool {
        self.used <= self.limit
    }

    /// A budget of `limit` tokens with nothing reserved.
    pub fn new(limit: u32) -> (b: TokenBudget)
        ensures
            b.wf(),
            b.limit_of() == limit,
            b.used_of() == 0,
    {
        TokenBudget { limit, used: 0 }
    }

    /// Tokens still available.
    pub fn remaining(&self) -> (r: u32)
        requires
            self.wf(),
        ensures
            r == self.limit_of() - self.used_of(),
    {
        self.limit - self.used
    }

    /// Reserve `n` tokens if they fit; returns whether they did.
    pub fn try_reserve(&mut self, n: u32) -> (ok: bool)
        requires
            old(self).wf(),
        ensures
            final(self).wf(),
            final(self).limit_of() == old(self).limit_of(),
            ok == (old(self).used_of() + n <= old(self).limit_of()),
            final(self).used_of() == if ok {
                old(self).used_of() + n
            } else {
                old(self).used_of() as int
            },
    {
        if n <= self.limit - self.used {
            self.used = self.used + n;
            true
        } else {
            false
        }
    }

    /// Give `n` tokens back (never below zero).
    pub fn release(&mut self, n: u32)
        requires
            old(self).wf(),
        ensures
            final(self).wf(),
            final(self).limit_of() == old(self).limit_of(),
            final(self).used_of() == if old(self).used_of() >= n {
                old(self).used_of() - n
            } else {
                0int
            },
    {
        if self.used >= n {
            self.used = self.used - n;
        } else {
            self.used = 0;
        }
    }
}

// ── Role alternation ──────────────────────────────────

/// Whether a message of role `next` may follow one of role `last`.
pub open spec fn may_follow(last: MessageRole, next: MessageRole) -> bool {
    match next {
        MessageRole::System => false,
        MessageRole::User => last == MessageRole::Assistant || last == MessageRole::System,
        MessageRole::Assistant => last == MessageRole::User || last == MessageRole::Tool,
        MessageRole::Tool => last == MessageRole::Assistant,
    }
}

/// Whether a message of role `first` may open a conversation.
pub open spec fn may_open(first: MessageRole) -> bool {
    first != MessageRole::Assistant
}

/// A valid sequence of roles: a permitted opener, then each role permitted
/// after its predecessor.
pub open spec fn valid_roles(roles: Seq<MessageRole>) -> bool {
    &&& roles.len() > 0 ==> may_open(roles[0])
    &&& forall|i: int| 1 <= i < roles.len() ==> may_follow(roles[i - 1], #[trigger] roles[i])
}

/// The roles of a list of messages.
pub open spec fn roles_of(msgs: Seq<ChatMessage>) -> Seq<MessageRole> {
    msgs.map_values(|m: ChatMessage| m.role)
}

/// Error returned when a message has an invalid role for the current position.
#[derive(Debug, Clone, PartialEq, Eq)]
pub struct RoleValidationError {
    /// The role that was rejected.
    pub attempted: MessageRole,
    /// The role of the preceding message (`System` when there is none).
    pub previous: MessageRole,
}

/// The name a role is printed under in messages (`System`, `User`, ...).
pub open spec fn role_name(r: MessageRole) -> Seq<char> {
    match r {
        MessageRole::System => "System"@,
        MessageRole::User => "User"@,
        MessageRole::Assistant => "Assistant"@,
        MessageRole::Tool => "Tool"@,
    }
}

fn role_name_str(r: MessageRole) -> (s: &'static str)
    ensures
        s@ == role_name(r),
{
    match r {
        MessageRole::System => "System",
        MessageRole::User => "User",
        MessageRole::Assistant => "Assistant",
        MessageRole::Tool => "Tool",
    }
}

impl RoleValidationError {
    /// The error message: `invalid role transition: <attempted> after
    /// <previous>`.
    pub fn to_string(&self) -> (s: String)
        ensures
            s@ == "invalid role transition: "@ + role_name(self.attempted) + " after "@ + role_name(
                self.previous,
            ),
    {
        let mut s = String::new();
        push_str(&mut s, "invalid role transition: ");
        push_str(&mut s, role_name_str(self.attempted));
        push_str(&mut s, " after ");
        push_str(&mut s, role_name_str(self.previous));
        s
    }
}

/// Manages an ordered conversation history with role validation and
/// token-budget-aware truncation.
#[derive(Debug, Clone)]
pub struct ConversationHistory {
    messages: Vec<ChatMessage>,
}

impl Default for ConversationHistory {
    fn default() -> (h: ConversationHistory)
        ensures
            h.msgs() == Seq::<ChatMessage>::empty(),
    {
        ConversationHistory::new()
    }
}

impl ConversationHistory {
    /// The messages, in order.
    pub closed spec fn msgs(&self) -> Seq<ChatMessage> {
        self.messages@
    }

    /// Create a new empty conversation history.
    pub fn new() -> (h: ConversationHistory)
        ensures
            h.msgs() == Seq::<ChatMessage>::empty(),
            valid_roles(roles_of(h.msgs())),
    {
        ConversationHistory { messages: Vec::new() }
    }

    /// Number of messages in the history.
    pub fn len(&self) -> (n: usize)
        ensures
            n == self.msgs().len(),
    {
        self.messages.len()
    }

    /// Whether the history is empty.
    pub fn is_empty(&self) -> (b: bool)
        ensures
            b == (self.msgs().len() == 0),
    {
        self.messages.len() == 0
    }

    /// Access the messages.
    pub fn messages(&self) -> (m: &[ChatMessage])
        ensures
            m@ == self.msgs(),
    {
        self.messages.as_slice()
    }

    /// Append a message with role alternation validation.
    ///
    /// Rules: the first message may be `System`, `User` or `Tool`; `System`
    /// only first; `User` after `Assistant` or `System`; `Assistant` after
    /// `User` or `Tool`; `Tool` after `Assistant`.
    pub fn push(&mut self, message: ChatMessage) -> (r: Result<(), RoleValidationError>)
        ensures
            match r {
                Ok(()) => final(self).msgs() == old(self).msgs().push(message),
                Err(e) => final(self).msgs() == old(self).msgs() && e.attempted == message.role
                    && e.previous == (if old(self).msgs().len() > 0 {
                    old(self).msgs().last().role
                } else {
                    MessageRole::System
                }),
            },
            r is Ok <==> (if old(self).msgs().len() > 0 {
                may_follow(old(self).msgs().last().role, message.role)
            } else {
                may_open(message.role)
            }),
            valid_roles(roles_of(old(self).msgs())) ==> valid_roles(roles_of(final(self).msgs())),
    {
        let n = self.messages.len();
        if n > 0 {
            let last = self.messages[n - 1].role;
            let valid = match message.role {
                MessageRole::System => false,
                MessageRole::User => last == MessageRole::Assistant || last == MessageRole::System,
                MessageRole::Assistant => last == MessageRole::User || last == MessageRole::Tool,
                MessageRole::Tool => last == MessageRole::Assistant,
            };
            if !valid {
                return Err(RoleValidationError { attempted: message.role, previous: last });
            }
        } else {
            if message.role == MessageRole::Assistant {
                return Err(
                    RoleValidationError {
                        attempted: message.role,
                        previous: MessageRole::System,
                    },
                );
            }
        }
        let ghost m0 = self.messages@;
        self.messages.push(message);
        proof {
            let r0 = roles_of(m0);
            let r1 = roles_of(self.messages@);
            assert(r1 == r0.push(message.role));
            if valid_roles(r0) {
                assert forall|i: int| 1 <= i < r1.len() implies may_follow(r1[i - 1], #[trigger] r1[i]) by {
                    if i < r0.len() {
                        assert(r1[i] == r0[i] && r1[i - 1] == r0[i - 1]);
                    }
                }
            }
        }
        Ok(())
    }

    /// The messages without the `System` ones, in order: what a request
    /// built from this history carries as its message list (the system
    /// prompt is given to the request separately).
    pub fn into_non_system(self) -> (v: Vec<ChatMessage>)
        ensures
            v@ == self.msgs().filter(|m: ChatMessage| m.role != MessageRole::System),
    {
        let ghost all = self.messages@;
        let ghost keep = |m: ChatMessage| m.role != MessageRole::System;
        let mut src = self.messages;
        let mut rev: Vec<ChatMessage> = Vec::new();
        while src.len() > 0
            invariant
                src@ + rev@.reverse() == all,
            decreases src.len(),
        {
            let ghost s0 = src@;
            let ghost r0 = rev@;
            let m = src.pop().unwrap();
            rev.push(m);
            assert(rev@.reverse() == seq![m] + r0.reverse()) by {
                assert(rev@ == r0.push(m));
                assert(rev@.reverse() =~= seq![m] + r0.reverse());
            }
            assert(s0 == src@.push(m));
            assert(src@ + rev@.reverse() =~= s0 + r0.reverse());
        }
        assert(rev@.reverse() == all);
        let mut out: Vec<ChatMessage> = Vec::new();
        assert(all.take(0) == Seq::<ChatMessage>::empty());
        assert(all.take(0).filter(keep) == Seq::<ChatMessage>::empty()) by {
            reveal(Seq::filter);
        }
        while rev.len() > 0
            invariant
                rev.len() <= all.len(),
                all.take(all.len() - rev.len()) + rev@.reverse() == all,
                out@ == all.take(all.len() - rev.len()).filter(keep),
                keep == (|m: ChatMessage| m.role != MessageRole::System),
            decreases rev.len(),
        {
            let ghost k = all.len() - rev.len();
            let ghost r0 = rev@;
            let m = rev.pop().unwrap();
            assert(r0 == rev@.push(m));
            assert(r0.reverse() =~= seq![m] + rev@.reverse());
            assert(all[k] == m) by {
                assert((all.take(k) + r0.reverse())[k] == r0.reverse()[0]);
            }
            assert(all.take(k + 1).drop_last() =~= all.take(k));
            assert(all.take(k + 1).last() == m);
            let ghost t = all.take(k + 1);
            assert(t.filter(keep) == (if keep(t.last()) {
                t.drop_last().filter(keep).push(t.last())
            } else {
                t.drop_last().filter(keep)
            })) by {
                reveal(Seq::filter);
            }
            assert(keep(m) == (m.role != MessageRole::System));
            if m.role != MessageRole::System {
                out.push(m);
            }
            assert(all.take(k + 1) + rev@.reverse() =~= all) by {
                assert(all.take(k) + r0.reverse() == all);
                assert(all.take(k + 1) =~= all.take(k).push(m));
            }
        }
        assert(all.take(all.len() as int) == all);
        out
    }

    /// Estimate the total token count of all messages.
    pub fn token_count(&self) -> (n: u32)
        requires
            total_tokens(self.msgs()) <= u32::MAX,
        ensures
            n as int == total_tokens(self.msgs()),
    {
        let mut total: u32 = 0;
        let mut i: usize = 0;
        assert(self.messages@.take(0) == Seq::<ChatMessage>::empty());
        while i < self.messages.len()
            invariant
                i <= self.messages@.len(),
                total as int == total_tokens(self.messages@.take(i as int)),
                total_tokens(self.messages@) <= u32::MAX,
            decreases self.messages@.len() - i,
        {
            let t = self.messages[i].text_content();
            let k = estimate_tokens(t.as_str());
            assert(self.messages@.take(i + 1).drop_last() == self.messages@.take(i as int));
            proof {
                lemma_total_tokens_prefix(self.messages@, i as int + 1);
            }
            total = total + k as u32;
            i += 1;
        }
        assert(self.messages@.take(self.messages@.len() as int) == self.messages@);
        total
    }

    /// Remove the oldest non-system messages until `budget` can reserve
    /// `needed` more tokens (reserving them), releasing each removed message's
    /// token estimate. A leading `System` message is always kept. Returns the
    /// number of messages removed.
    pub fn truncate_to_budget(&mut self, budget: &mut TokenBudget, needed: u32) -> (removed: usize)
        requires
            old(budget).wf(),
        ensures
            final(budget).wf(),
            final(budget).limit_of() == old(budget).limit_of(),
            (removed as int, final(budget).used_of() as int) == truncation(
                old(budget).used_of() as int,
                old(budget).limit_of() as int,
                needed as int,
                msg_token_seq(old(self).msgs()),
                first_kept(old(self).msgs()),
            ),
            removed + first_kept(old(self).msgs()) <= old(self).msgs().len(),
            releases_oldest_first(
                old(budget).used_of() as int,
                old(budget).limit_of() as int,
                needed as int,
                msg_token_seq(old(self).msgs()),
                first_kept(old(self).msgs()),
                removed as int,
                final(budget).used_of() as int,
            ),
            final(self).msgs() == old(self).msgs().take(first_kept(old(self).msgs())) + old(
                self,
            ).msgs().skip(first_kept(old(self).msgs()) + removed),
            final(self).msgs().len() == old(self).msgs().len() - removed,
            old(self).msgs().len() > 0 && old(self).msgs()[0].role == MessageRole::System
                ==> final(self).msgs().len() > 0 && final(self).msgs()[0] == old(self).msgs()[0],
    {
        let ghost orig = self.messages@;
        let ghost costs = msg_token_seq(orig);
        proof {
            lemma_truncation_releases_removed(
                budget.used_of() as int,
                budget.limit_of() as int,
                needed as int,
                costs,
                first_kept(orig),
            );
        }
        if budget.try_reserve(needed) {
            assert(orig.take(first_kept(orig)) + orig.skip(first_kept(orig)) =~= orig);
            return 0;
        }
        let mut removed: usize = 0;
        let start: usize = if self.messages.len() > 0 && self.messages[0].role
            == MessageRole::System {
            1
        } else {
            0
        };
        let mut i: usize = start;
        while i < self.messages.len()
            invariant_except_break
                start <= i <= orig.len(),
                removed == i - start,
                budget.wf(),
                budget.limit_of() == old(budget).limit_of(),
                self.messages@ == orig,
                costs == msg_token_seq(orig),
                start == first_kept(orig),
                truncation(
                    old(budget).used_of() as int,
                    old(budget).limit_of() as int,
                    needed as int,
                    costs,
                    start as int,
                ) == truncate_from(
                    budget.used_of() as int,
                    budget.limit_of() as int,
                    needed as int,
                    costs,
                    i as int,
                    removed as int,
                ),
            ensures
                start + removed <= orig.len(),
                budget.wf(),
                budget.limit_of() == old(budget).limit_of(),
                self.messages@ == orig,
                start == first_kept(orig),
                (removed as int, budget.used_of() as int) == truncation(
                    old(budget).used_of() as int,
                    old(budget).limit_of() as int,
                    needed as int,
                    costs,
                    start as int,
                ),
            decreases orig.len() - i,
        {
            if budget.try_reserve(needed) {
                break;
            }
            let t = self.messages[i].text_content();
            let k = estimate_tokens(t.as_str());
            budget.release(k as u32);
            removed += 1;
            i += 1;
        }
        let mut j: usize = 0;
        while j < removed
            invariant
                j <= removed,
                start + removed <= orig.len(),
                self.messages@ == orig.take(start as int) + orig.skip(start + j),
            decreases removed - j,
        {
            self.messages.remove(start);
            assert(self.messages@ =~= orig.take(start as int) + orig.skip(start + j + 1));
            j += 1;
        }
        removed
    }
}

/// Token estimate of one message (the `u32` truncation of its estimate).
pub open spec fn msg_tokens(m: ChatMessage) -> int {
    tokens_for_len(text_of(m.content@).len() as int)
}

/// Token estimates of all messages, in order, as the budget arithmetic sees
/// them (truncated to `u32`).
pub open spec fn msg_token_seq(msgs: Seq<ChatMessage>) -> Seq<u32> {
    msgs.map_values(|m: ChatMessage| msg_tokens(m) as u32)
}

/// Sum of the token estimates of `msgs`.
pub open spec fn total_tokens(msgs: Seq<ChatMessage>) -> int
    decreases msgs.len(),
{
    if msgs.len() == 0 {
        0
    } else {
        total_tokens(msgs.drop_last()) + msg_tokens(msgs.last())
    }
}

proof fn lemma_total_tokens_prefix(msgs: Seq<ChatMessage>, k: int)
    requires
        0 <= k <= msgs.len(),
    ensures
        total_tokens(msgs.take(k)) <= total_tokens(msgs),
    decreases msgs.len() - k,
{
    if k < msgs.len() {
        lemma_total_tokens_prefix(msgs, k + 1);
        assert(msgs.take(k + 1).drop_last() == msgs.take(k));
    } else {
        assert(msgs.take(k) == msgs);
    }
}

/// Index of the first message truncation may release: 1 when the history
/// starts with a `System` message, else 0.
pub open spec fn first_kept(msgs: Seq<ChatMessage>) -> int {
    if msgs.len() > 0 && msgs[0].role == MessageRole::System {
        1
    } else {
        0
    }
}

/// Budget usage after a successful reservation attempt of `needed` on usage `used`.
pub open spec fn fits(used: int, limit: int, needed: int) -> bool {
    used + needed <= limit
}

/// The outcome `(removed, used)` of truncating from message `i` on, with
/// `removed` messages released so far and `used` tokens reserved.
pub open spec fn truncate_from(
    used: int,
    limit: int,
    needed: int,
    costs: Seq<u32>,
    i: int,
    removed: int,
) -> (int, int)
    decreases costs.len() - i,
{
    if i >= costs.len() || i < 0 {
        (removed, used)
    } else if fits(used, limit, needed) {
        (removed, used + needed)
    } else {
        let after = if used >= costs[i] {
            used - costs[i]
        } else {
            0
        };
        truncate_from(after, limit, needed, costs, i + 1, removed + 1)
    }
}

/// The outcome `(removed, used)` of the whole truncation.
pub open spec fn truncation(used: int, limit: int, needed: int, costs: Seq<u32>, start: int) -> (
    int,
    int,
) {
    if fits(used, limit, needed) {
        (0, used + needed)
    } else {
        truncate_from(used, limit, needed, costs, start, 0)
    }
}

/// The sum of the token estimates `costs[from..to]`.
pub open spec fn cost_sum(costs: Seq<u32>, from: int, to: int) -> int
    decreases to - from,
{
    if to <= from {
        0
    } else {
        cost_sum(costs, from, to - 1) + costs[to - 1]
    }
}

/// Usage `used` after `released` tokens are given back (never below zero).
pub open spec fn after_release(used: int, released: int) -> int {
    if used >= released {
        used - released
    } else {
        0
    }
}

/// What a truncation that starts at message `start` with usage `used` and
/// ends with `removed` messages removed and usage `final_used` must satisfy:
/// the removed messages are exactly `start..start + removed`; each earlier
/// point (after releasing fewer of them) left too little room for `needed`;
/// it stopped at the first point with room, reserving `needed` there, or ran
/// out of messages, having released all of their estimates and reserved
/// nothing.
pub open spec fn releases_oldest_first(
    used: int,
    limit: int,
    needed: int,
    costs: Seq<u32>,
    start: int,
    removed: int,
    final_used: int,
) -> bool {
    &&& 0 <= removed <= costs.len() - start
    &&& forall|j: int|
        0 <= j < removed ==> !fits(
            #[trigger] after_release(used, cost_sum(costs, start, start + j)),
            limit,
            needed,
        )
    &&& start + removed < costs.len() ==> fits(
        after_release(used, cost_sum(costs, start, start + removed)),
        limit,
        needed,
    )
    &&& (start + removed < costs.len() || removed == 0) && fits(
        after_release(used, cost_sum(costs, start, start + removed)),
        limit,
        needed,
    ) ==> final_used == after_release(used, cost_sum(costs, start, start + removed)) + needed
    &&& (start + removed == costs.len() && removed > 0) || !fits(
        after_release(used, cost_sum(costs, start, start + removed)),
        limit,
        needed,
    ) ==> final_used == after_release(used, cost_sum(costs, start, start + removed))
}

proof fn lemma_cost_sum_front(costs: Seq<u32>, from: int, to: int)
    requires
        0 <= from < to <= costs.len(),
    ensures
        cost_sum(costs, from, to) == costs[from] + cost_sum(costs, from + 1, to),
        cost_sum(costs, from + 1, to) >= 0,
    decreases to - from,
{
    reveal_with_fuel(cost_sum, 2);
    if to > from + 1 {
        lemma_cost_sum_front(costs, from, to - 1);
    }
}

proof fn lemma_truncate_from_releases(
    used: int,
    limit: int,
    needed: int,
    costs: Seq<u32>,
    i: int,
    removed: int,
)
    requires
        0 <= i < costs.len(),
        used >= 0,
        !fits(used, limit, needed),
    ensures
        truncate_from(used, limit, needed, costs, i, removed).0 - removed >= 1,
        releases_oldest_first(
            used,
            limit,
            needed,
            costs,
            i,
            truncate_from(used, limit, needed, costs, i, removed).0 - removed,
            truncate_from(used, limit, needed, costs, i, removed).1,
        ),
    decreases costs.len() - i,
{
    let after = after_release(used, costs[i] as int);
    assert(after_release(used, cost_sum(costs, i, i)) == used);
    assert(cost_sum(costs, i, i + 1) == costs[i]) by {
        lemma_cost_sum_front(costs, i, i + 1);
    }
    if i + 1 < costs.len() && !fits(after, limit, needed) {
        lemma_truncate_from_releases(after, limit, needed, costs, i + 1, removed + 1);
        let k = truncate_from(used, limit, needed, costs, i, removed).0 - removed;
        assert forall|j: int| 1 <= j <= k implies #[trigger] after_release(
            used,
            cost_sum(costs, i, i + j),
        ) == after_release(after, cost_sum(costs, i + 1, i + j)) by {
            lemma_cost_sum_front(costs, i, i + j);
        }
        assert forall|j: int| 0 <= j < k implies !fits(
            #[trigger] after_release(used, cost_sum(costs, i, i + j)),
            limit,
            needed,
        ) by {
            if j > 0 {
                assert(after_release(after, cost_sum(costs, i + 1, i + 1 + (j - 1)))
                    == after_release(used, cost_sum(costs, i, i + j)));
            }
        }
    } else {
        assert forall|j: int| 0 <= j < 1 implies !fits(
            #[trigger] after_release(used, cost_sum(costs, i, i + j)),
            limit,
            needed,
        ) by {}
    }
}

/// Truncation gives back exactly the token estimates of the messages it
/// removes, oldest first from the first non-system message, and stops at the
/// first point where the needed tokens fit (reserving them there).
pub proof fn lemma_truncation_releases_removed(
    used: int,
    limit: int,
    needed: int,
    costs: Seq<u32>,
    start: int,
)
    requires
        0 <= start <= costs.len(),
        used >= 0,
    ensures
        fits(used, limit, needed) ==> truncation(used, limit, needed, costs, start) == (
            0int,
            used + needed,
        ),
        releases_oldest_first(
            used,
            limit,
            needed,
            costs,
            start,
            truncation(used, limit, needed, costs, start).0,
            truncation(used, limit, needed, costs, start).1,
        ),
{
    if fits(used, limit, needed) {
        assert(after_release(used, cost_sum(costs, start, start)) == used);
    } else if start < costs.len() {
        lemma_truncate_from_releases(used, limit, needed, costs, start, 0);
    } else {
        assert(after_release(used, cost_sum(costs, start, start)) == used);
    }
}

} // verus!
