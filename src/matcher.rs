//! Finding the keyword subscriptions that an incoming message triggers.

use vstd::prelude::*;

use crate::seqs::lemma_filter_step;
use crate::text::{char_eq_ignore_ascii_case, chars_eq_ignore_ascii_case, eq_ignore_ascii_case_spec};
use crate::user_state::{UserStateKind, UserStates};

verus! {

broadcast use vstd::seq_lib::group_filter_ensures;

/// A subscription: user `user_id` wants to hear of `keyword` in guild `server_id`.
#[derive(Debug, Clone)]
pub struct Keyword {
    pub keyword: String,
    pub user_id: u64,
    pub server_id: u64,
}

impl Keyword {
    /// A copy of this subscription.
    pub fn cloned(&self) -> (r: Keyword)
        ensures
            r == *self,
    {
        Keyword { keyword: self.keyword.clone(), user_id: self.user_id, server_id: self.server_id }
    }
}

/// A message as it arrives from a guild channel.
#[derive(Debug, Clone)]
pub struct IncomingMessage {
    pub id: u64,
    pub author_id: u64,
    pub channel_id: u64,
    pub guild_id: u64,
    pub timestamp: u64,
    pub content: String,
}

/// `keyword` occurs in `text`, up to ASCII case.
pub open spec fn keyword_occurs(text: Seq<char>, keyword: Seq<char>) -> bool {
    exists|i: int|
        0 <= i && i + keyword.len() <= text.len() && eq_ignore_ascii_case_spec(
            #[trigger] text.subrange(i, i + keyword.len()),
            keyword,
        )
}

/// The subscription matches the message: same guild, another user than the
/// author, and its keyword occurs in the content.
pub open spec fn is_match(m: IncomingMessage, k: Keyword) -> bool {
    k.server_id == m.guild_id && k.user_id != m.author_id && keyword_occurs(
        m.content@,
        k.keyword@,
    )
}

/// The user may be sent direct messages.
pub open spec fn deliverable(states: Map<u64, UserStateKind>, user_id: u64) -> bool {
    !(states.contains_key(user_id) && states[user_id] == UserStateKind::CannotDm)
}

/// The subscription matches and its user may be notified.
pub open spec fn is_candidate(m: IncomingMessage, states: Map<u64, UserStateKind>) -> spec_fn(
    Keyword,
) -> bool {
    |k: Keyword| is_match(m, k) && deliverable(states, k.user_id)
}

/// The characters of a string.
fn chars_of(s: &str) -> (r: Vec<char>)
    ensures
        r@ == s@,
{
    let n = s.unicode_len();
    let mut r: Vec<char> = Vec::new();
    let mut i: usize = 0;
    while i < n
        invariant
            i <= n,
            n == s@.len(),
            r@ == s@.subrange(0, i as int),
        decreases n - i,
    {
        r.push(s.get_char(i));
        i = i + 1;
        assert(r@ =~= s@.subrange(0, i as int));
    }
    assert(r@ =~= s@);
    r
}

/// Whether `keyword` occurs in `text` up to ASCII case.
fn occurs_ignore_ascii_case(text: &Vec<char>, keyword: &Vec<char>) -> (r: bool)
    ensures
        r == keyword_occurs(text@, keyword@),
{
    let n = keyword.len();
    if n > text.len() {
        return false;
    }
    let last = text.len() - n;
    let mut i: usize = 0;
    while i <= last
        invariant
            n == keyword.len(),
            last + n == text.len(),
            i <= last + 1,
            forall|j: int|
                0 <= j < i ==> !eq_ignore_ascii_case_spec(
                    #[trigger] text@.subrange(j, j + n),
                    keyword@,
                ),
        decreases last + 1 - i,
    {
        let mut t: usize = 0;
        let mut same = true;
        while t < n
            invariant
                n == keyword.len(),
                i + n <= text.len(),
                t <= n,
                same ==> forall|u: int|
                    0 <= u < t ==> chars_eq_ignore_ascii_case(
                        #[trigger] text@[i + u],
                        keyword@[u],
                    ),
                !same ==> !eq_ignore_ascii_case_spec(text@.subrange(i as int, i + n), keyword@),
            decreases n - t,
        {
            if same {
                if !char_eq_ignore_ascii_case(text[i + t], keyword[t]) {
                    same = false;
                    assert(text@.subrange(i as int, i + n)[t as int] == text@[i + t]);
                }
            }
            t = t + 1;
        }
        if same {
            assert(eq_ignore_ascii_case_spec(text@.subrange(i as int, i + n), keyword@)) by {
                assert forall|u: int| 0 <= u < n implies chars_eq_ignore_ascii_case(
                    #[trigger] text@.subrange(i as int, i + n)[u],
                    keyword@[u],
                ) by {
                    assert(text@.subrange(i as int, i + n)[u] == text@[i + u]);
                }
            }
            return true;
        }
        i = i + 1;
    }
    false
}

/// The subscriptions that a message triggers, in the order given: those of
/// the message's guild whose keyword occurs in it up to ASCII case, but
/// never the author's own, nor those of users who cannot be sent direct
/// messages.
pub fn keyword_candidates(message: &IncomingMessage, keywords: &Vec<Keyword>, states: &UserStates) -> (r:
    Vec<Keyword>)
    ensures
        r@ == keywords@.filter(is_candidate(*message, states@)),
{
    let text = chars_of(message.content.as_str());
    let mut r: Vec<Keyword> = Vec::new();
    let mut i: usize = 0;
    while i < keywords.len()
        invariant
            i <= keywords.len(),
            text@ == message.content@,
            r@ == keywords@.subrange(0, i as int).filter(is_candidate(*message, states@)),
        decreases keywords.len() - i,
    {
        proof {
            lemma_filter_step(keywords@, is_candidate(*message, states@), i as int);
        }
        let k = &keywords[i];
        if k.server_id == message.guild_id && k.user_id != message.author_id && states.can_dm(
            k.user_id,
        ) {
            let kw = chars_of(k.keyword.as_str());
            if occurs_ignore_ascii_case(&text, &kw) {
                r.push(k.cloned());
            }
        }
        i = i + 1;
    }
    assert(keywords@.subrange(0, keywords.len() as int) =~= keywords@);
    r
}

/// A user's own message never triggers that user's subscriptions.
pub proof fn lemma_author_never_notified(
    m: IncomingMessage,
    keywords: Seq<Keyword>,
    states: Map<u64, UserStateKind>,
)
    ensures
        forall|k: int|
            0 <= k < keywords.filter(is_candidate(m, states)).len() ==> (#[trigger] keywords.filter(
                is_candidate(m, states),
            )[k]).user_id != m.author_id,
{
    assert forall|k: int| 0 <= k < keywords.filter(is_candidate(m, states)).len() implies (
    #[trigger] keywords.filter(is_candidate(m, states))[k]).user_id != m.author_id by {
        keywords.lemma_filter_pred(is_candidate(m, states), k);
    }
}

/// Flagging a user as unreachable by direct message drops all of that
/// user's subscriptions from the candidates; clearing the flag brings back
/// every one that matches.
pub proof fn lemma_cannot_dm_gates_matching(
    m: IncomingMessage,
    keywords: Seq<Keyword>,
    states: Map<u64, UserStateKind>,
    user_id: u64,
)
    ensures
        forall|k: int|
            0 <= k < keywords.filter(
                is_candidate(m, states.insert(user_id, UserStateKind::CannotDm)),
            ).len() ==> (#[trigger] keywords.filter(
                is_candidate(m, states.insert(user_id, UserStateKind::CannotDm)),
            )[k]).user_id != user_id,
        forall|i: int|
            0 <= i < keywords.len() && (#[trigger] keywords[i]).user_id == user_id && is_match(
                m,
                keywords[i],
            ) ==> keywords.filter(is_candidate(m, states.remove(user_id))).contains(keywords[i]),
{
    let flagged = states.insert(user_id, UserStateKind::CannotDm);
    assert forall|k: int| 0 <= k < keywords.filter(is_candidate(m, flagged)).len() implies (
    #[trigger] keywords.filter(is_candidate(m, flagged))[k]).user_id != user_id by {
        keywords.lemma_filter_pred(is_candidate(m, flagged), k);
    }
    let cleared = states.remove(user_id);
    assert forall|i: int|
        0 <= i < keywords.len() && (#[trigger] keywords[i]).user_id == user_id && is_match(
            m,
            keywords[i],
        ) implies keywords.filter(is_candidate(m, cleared)).contains(keywords[i]) by {
        assert(!cleared.contains_key(user_id));
        keywords.lemma_filter_contains(is_candidate(m, cleared), i);
    }
}

} // verus!
