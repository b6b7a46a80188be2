//! Conversation manager.
//!
//! Conversations live in a bounded least-recently-used table with an
//! idle time-to-live.  Each chat turn appends the user message,
//! derives the prompt window — a contiguous suffix of at most
//! `2 * PROMPT_TURNS` messages — hands it to the LLM outside the
//! library, and appends the reply.  Replies to an identical
//! `(conversation id, message)` pair are answered from a bounded
//! reply cache.

use vstd::prelude::*;

verus! {

/// Bound on conversations kept in the table.
pub const CONVERSATION_CAPACITY: usize = 100;

/// Idle time-to-live of a conversation, in milliseconds.
pub const CONVERSATION_TTL_MS: u64 = 3600000;

/// Turns of context handed to the LLM; a turn is two messages.
pub const PROMPT_TURNS: usize = 6;

/// The conversational LLM providers the service can stand in front
/// of.
#[derive(Debug, Clone, Copy, PartialEq, Eq, Structural)]
pub enum LlmProvider {
    Ollama,
}

/// One message of a conversation.
#[derive(Debug)]
pub struct Message {
    pub role: String,
    pub content: String,
    pub timestamp_ms: u64,
}

impl Clone for Message {
    /// An equal-viewed copy.
    fn clone(&self) -> (other: Self)
        ensures
            msg_view(other) == msg_view(*self),
    {
        Message {
            role: self.role.clone(),
            content: self.content.clone(),
            timestamp_ms: self.timestamp_ms,
        }
    }
}

/// A conversation: an id and its ordered messages.
#[derive(Debug)]
pub struct Conversation {
    pub id: String,
    pub messages: Vec<Message>,
    pub created_at_ms: u64,
    pub updated_at_ms: u64,
}

/// A cached conversation with its last access time.
#[derive(Debug)]
pub struct ConversationEntry {
    pub conversation: Conversation,
    pub last_accessed_ms: u64,
}

/// The view of one message: role, content, timestamp.
pub type MsgView = (Seq<char>, Seq<char>, u64);

/// The view of a cached conversation: id, messages, created,
/// updated, last accessed.
pub type ConvVal = (Seq<char>, Seq<MsgView>, u64, u64, u64);

pub open spec fn msg_view(m: Message) -> MsgView {
    (m.role@, m.content@, m.timestamp_ms)
}

/// The views of a message list.
pub open spec fn msgs_view(ms: Seq<Message>) -> Seq<MsgView> {
    ms.map_values(|m: Message| msg_view(m))
}

pub open spec fn entry_view(e: ConversationEntry) -> ConvVal {
    (
        e.conversation.id@,
        msgs_view(e.conversation.messages@),
        e.conversation.created_at_ms,
        e.conversation.updated_at_ms,
        e.last_accessed_ms,
    )
}

#[verifier::external_type_specification]
#[verifier::external_body]
#[verifier::reject_recursive_types(K)]
#[verifier::reject_recursive_types(V)]
#[verifier::reject_recursive_types(S)]
pub struct ExLruCache<K, V, S>(lru::LruCache<K, V, S>);

/// What the conversation table holds: key and entry views in
/// most-recently-used-first order.
pub uninterp spec fn lru_entries(c: &lru::LruCache<String, ConversationEntry>) -> Seq<(Seq<char>, ConvVal)>;

/// The capacity the conversation table was created with.
pub uninterp spec fn lru_cap(c: &lru::LruCache<String, ConversationEntry>) -> int;

/// Some entry of `e` carries key `k`.
pub open spec fn has_key(e: Seq<(Seq<char>, ConvVal)>, k: Seq<char>) -> bool {
    exists|i: int| 0 <= i < e.len() && e[i].0 == k
}

/// The index of the entry carrying key `k`.
pub open spec fn key_index(e: Seq<(Seq<char>, ConvVal)>, k: Seq<char>) -> int {
    choose|i: int| 0 <= i < e.len() && e[i].0 == k
}

/// No two entries carry the same key.
pub open spec fn keys_unique(e: Seq<(Seq<char>, ConvVal)>) -> bool {
    forall|i: int, j: int| 0 <= i < j < e.len() ==> e[i].0 != e[j].0
}

/// Relies on lru::LruCache::new: a fresh, empty cache with the given
/// capacity.
#[verifier::external_body]
fn lru_new(cap: usize) -> (c: lru::LruCache<String, ConversationEntry>)
    requires
        cap > 0,
    ensures
        lru_entries(&c) == Seq::<(Seq<char>, ConvVal)>::empty(),
        lru_cap(&c) == cap,
{
    lru::LruCache::new(core::num::NonZeroUsize::new(cap).unwrap())
}

/// Relies on lru::LruCache::len: the number of held entries.
#[verifier::external_body]
fn lru_len(c: &lru::LruCache<String, ConversationEntry>) -> (n: usize)
    ensures
        n == lru_entries(c).len(),
{
    c.len()
}

/// Relies on lru::LruCache::push: an existing key is updated and
/// moved to the front and its old pair returned; a new key is put at
/// the front, evicting the least-recently-used entry — the last in
/// most-recent-first order — when the cache is full.
#[verifier::external_body]
fn lru_push(
    c: &mut lru::LruCache<String, ConversationEntry>,
    k: String,
    v: ConversationEntry,
) -> (evicted: Option<(String, ConversationEntry)>)
    ensures
        lru_cap(final(c)) == lru_cap(old(c)),
        has_key(lru_entries(old(c)), k@) ==> lru_entries(final(c)) == seq![(k@, entry_view(v))]
            + lru_entries(old(c)).remove(key_index(lru_entries(old(c)), k@)),
        has_key(lru_entries(old(c)), k@) ==> (evicted matches Some(p) && p.0@ == k@
            && entry_view(p.1) == lru_entries(old(c))[key_index(lru_entries(old(c)), k@)].1),
        (!has_key(lru_entries(old(c)), k@) && lru_entries(old(c)).len() < lru_cap(old(c)))
            ==> lru_entries(final(c)) == seq![(k@, entry_view(v))] + lru_entries(old(c)),
        (!has_key(lru_entries(old(c)), k@) && lru_entries(old(c)).len() < lru_cap(old(c)))
            ==> evicted is None,
        (!has_key(lru_entries(old(c)), k@) && lru_entries(old(c)).len() >= lru_cap(old(c)))
            ==> lru_entries(old(c)).len() > 0 && lru_entries(final(c)) == seq![
            (k@, entry_view(v)),
        ] + lru_entries(old(c)).drop_last(),
        (!has_key(lru_entries(old(c)), k@) && lru_entries(old(c)).len() >= lru_cap(old(c)))
            ==> (evicted matches Some(p) && p.0@ == lru_entries(old(c)).last().0 && entry_view(p.1)
            == lru_entries(old(c)).last().1),
{
    c.push(k, v)
}

/// Relies on lru::LruCache::pop: removes and returns the entry of
/// `k`, leaving the rest in order.
#[verifier::external_body]
fn lru_pop(c: &mut lru::LruCache<String, ConversationEntry>, k: &String) -> (popped: Option<
    ConversationEntry,
>)
    ensures
        lru_cap(final(c)) == lru_cap(old(c)),
        has_key(lru_entries(old(c)), k@) ==> lru_entries(final(c)) == lru_entries(old(c)).remove(
            key_index(lru_entries(old(c)), k@),
        ),
        has_key(lru_entries(old(c)), k@) ==> (popped matches Some(v) && entry_view(v)
            == lru_entries(old(c))[key_index(lru_entries(old(c)), k@)].1),
        !has_key(lru_entries(old(c)), k@) ==> lru_entries(final(c)) == lru_entries(old(c)),
        !has_key(lru_entries(old(c)), k@) ==> popped is None,
{
    c.pop(k)
}

/// Relies on lru::LruCache::iter: visits entries most-recently-used
/// first.  Returns each key with its entry's last access time.
#[verifier::external_body]
fn lru_snapshot(c: &lru::LruCache<String, ConversationEntry>) -> (snap: Vec<(String, u64)>)
    ensures
        snap@.len() == lru_entries(c).len(),
        forall|i: int|
            0 <= i < snap@.len() ==> (#[trigger] snap@[i]).0@ == lru_entries(c)[i].0
                && snap@[i].1 == lru_entries(c)[i].1.4,
{
    c.iter().map(|(k, v)| (k.clone(), v.last_accessed_ms)).collect()
}

/// Relies on uuid::Uuid::new_v4 and its hyphenated display form: a
/// random 36-character conversation id.
#[verifier::external_body]
pub fn new_conversation_id() -> (id: String)
    ensures
        id@.len() == 36,
{
    uuid::Uuid::new_v4().to_string()
}

pub assume_specification<T>[ rand::random::<T> ]() -> (r: T)
    where
        rand::distributions::Standard: rand::distributions::Distribution<T>,
;

/// Decide, by a cheap pseudo-random check, whether this request
/// should sweep the expired cache entries: true about one time in
/// ten.
pub fn should_sweep() -> bool {
    let r: u8 = rand::random::<u8>();
    r % 10 == 0
}

/// The suffix of `all` holding its last `n` turns, a turn being two
/// messages.
pub open spec fn tail_start(len: int, n: int) -> int {
    if len >= 2 * n {
        len - 2 * n
    } else {
        0
    }
}

/// The prompt window: the last `n` turns (at most `2 * n` messages)
/// of a conversation, as a contiguous suffix in order.
pub fn tail(all: &Vec<Message>, n: usize) -> (window: Vec<Message>)
    requires
        n <= 1000,
    ensures
        msgs_view(window@) == msgs_view(all@).skip(tail_start(all@.len() as int, n as int)),
        window@.len() <= 2 * n,
{
    let len = all.len();
    let start = if len >= 2 * n {
        len - 2 * n
    } else {
        0
    };
    let mut window: Vec<Message> = Vec::new();
    let mut i = start;
    while i < len
        invariant
            start <= i <= len,
            len == all@.len(),
            start == tail_start(len as int, n as int),
            msgs_view(window@) == msgs_view(all@).subrange(start as int, i as int),
        decreases len - i,
    {
        let m = all[i].clone();
        let ghost wprev = window@;
        window.push(m);
        proof {
            assert(msgs_view(window@) =~= msgs_view(wprev).push(msg_view(window@.last())));
            assert(msg_view(window@.last()) == msgs_view(all@)[i as int]);
            assert(msgs_view(window@) =~= msgs_view(all@).subrange(start as int, i + 1));
        }
        i += 1;
    }
    proof {
        assert(msgs_view(all@).subrange(start as int, len as int) =~= msgs_view(all@).skip(
            start as int,
        ));
    }
    window
}


/// The bounded, TTL-governed conversation table.
pub struct ConversationStore {
    pub table: lru::LruCache<String, ConversationEntry>,
    pub ttl_ms: u64,
}

impl ConversationStore {
    /// Table well-formedness: unique keys, each entry's id equal to
    /// its key, and the size within the capacity bound.
    pub open spec fn wf(&self) -> bool {
        &&& keys_unique(lru_entries(&self.table))
        &&& lru_cap(&self.table) >= 1
        &&& lru_entries(&self.table).len() <= lru_cap(&self.table)
        &&& forall|i: int|
            0 <= i < lru_entries(&self.table).len() ==> (#[trigger] lru_entries(&self.table)[i]).1.0
                == lru_entries(&self.table)[i].0
    }

    /// A fresh store for at most `cap` conversations with the given
    /// idle TTL.
    pub fn new(cap: usize, ttl_ms: u64) -> (store: ConversationStore)
        requires
            cap > 0,
        ensures
            store.wf(),
            lru_entries(&store.table) == Seq::<(Seq<char>, ConvVal)>::empty(),
            store.ttl_ms == ttl_ms,
    {
        ConversationStore { table: lru_new(cap), ttl_ms }
    }

    /// Number of conversations held.
    pub fn len(&self) -> (n: usize)
        ensures
            n == lru_entries(&self.table).len(),
    {
        lru_len(&self.table)
    }

    /// The messages of the conversation `k` before this turn: its
    /// stored messages, or none for a new conversation.
    pub open spec fn prior_messages(e: Seq<(Seq<char>, ConvVal)>, k: Seq<char>) -> Seq<MsgView> {
        if has_key(e, k) {
            e[key_index(e, k)].1.1
        } else {
            Seq::empty()
        }
    }

    /// Open a turn: fetch or create the conversation, append the
    /// user message, stamp the times, store it most-recently-used,
    /// and return the prompt window — a contiguous suffix of the
    /// updated messages with at most `2 * PROMPT_TURNS` entries.
    pub fn begin_turn(&mut self, conv_id: &String, user_message: &String, now: u64) -> (window:
        Vec<Message>)
        requires
            old(self).wf(),
        ensures
            final(self).wf(),
            final(self).ttl_ms == old(self).ttl_ms,
            ({
                let e0 = lru_entries(&old(self).table);
                let k = conv_id@;
                let msgs = Self::prior_messages(e0, k).push(("user"@, user_message@, now));
                let created = if has_key(e0, k) {
                    e0[key_index(e0, k)].1.2
                } else {
                    now
                };
                &&& lru_entries(&final(self).table).len() > 0
                &&& lru_entries(&final(self).table)[0] == (k, (k, msgs, created, now, now))
                &&& msgs_view(window@) == msgs.skip(tail_start(msgs.len() as int, PROMPT_TURNS as int))
                &&& window@.len() <= 2 * PROMPT_TURNS
                &&& (has_key(e0, k) ==> lru_entries(&final(self).table) == seq![
                    (k, (k, msgs, created, now, now)),
                ] + e0.remove(key_index(e0, k)))
                &&& ((!has_key(e0, k) && e0.len() < lru_cap(&old(self).table))
                    ==> lru_entries(&final(self).table) == seq![(k, (k, msgs, created, now, now))] + e0)
                &&& ((!has_key(e0, k) && e0.len() >= lru_cap(&old(self).table))
                    ==> lru_entries(&final(self).table) == seq![(k, (k, msgs, created, now, now))]
                    + e0.drop_last())
            }),
    {
        let ghost e0 = lru_entries(&old(self).table);
        let ghost k = conv_id@;
        let popped = lru_pop(&mut self.table, conv_id);
        let mut entry = match popped {
            Some(e) => e,
            None => ConversationEntry {
                conversation: Conversation {
                    id: conv_id.clone(),
                    messages: Vec::new(),
                    created_at_ms: now,
                    updated_at_ms: now,
                },
                last_accessed_ms: now,
            },
        };
        proof {
            if has_key(e0, k) {
                assert(entry_view(entry) == e0[key_index(e0, k)].1);
            } else {
                assert(msgs_view(entry.conversation.messages@) =~= Seq::<MsgView>::empty());
            }
        }
        let user_msg = Message {
            role: String::from_str("user"),
            content: user_message.clone(),
            timestamp_ms: now,
        };
        let ghost mprev = entry.conversation.messages@;
        entry.conversation.messages.push(user_msg);
        proof {
            assert(msgs_view(entry.conversation.messages@) =~= msgs_view(mprev).push(
                ("user"@, user_message@, now),
            ));
        }
        entry.conversation.updated_at_ms = now;
        entry.last_accessed_ms = now;
        let window = tail(&entry.conversation.messages, PROMPT_TURNS);
        let ghost e1 = lru_entries(&self.table);
        let ghost ev = entry_view(entry);
        proof {
            if has_key(e0, k) {
                assert(e1 == e0.remove(key_index(e0, k)));
                assert(!has_key(e1, k)) by {
                    let i = key_index(e0, k);
                    assert(e0[i].0 == k);
                    assert forall|j: int| 0 <= j < e1.len() implies e1[j].0 != k by {
                        if j < i {
                            assert(e1[j] == e0[j]);
                        } else {
                            assert(e1[j] == e0[j + 1]);
                        }
                    }
                }
                assert(e1.len() < lru_cap(&self.table));
            } else {
                assert(e1 == e0);
            }
        }
        let _ = lru_push(&mut self.table, conv_id.clone(), entry);
        proof {
            let ef = lru_entries(&self.table);
            assert(ef == seq![(k, ev)] + (if has_key(e0, k) {
                e0.remove(key_index(e0, k))
            } else if e0.len() < lru_cap(&old(self).table) {
                e0
            } else {
                e0.drop_last()
            }));
            assert(ef[0] == (k, ev));
            assert(keys_unique(ef)) by {
                assert forall|p: int, q: int| 0 <= p < q < ef.len() implies ef[p].0 != ef[q].0 by {
                    if p == 0 {
                        if has_key(e0, k) {
                            let i = key_index(e0, k);
                            let e1b = e0.remove(i);
                            assert(ef[q] == e1b[q - 1]);
                            if q - 1 < i {
                                assert(e1b[q - 1] == e0[q - 1]);
                            } else {
                                assert(e1b[q - 1] == e0[q]);
                            }
                        } else {
                            assert(ef[q].0 == e0[q - 1].0);
                            assert(!has_key(e0, k) ==> e0[q - 1].0 != k);
                        }
                    } else {
                        if has_key(e0, k) {
                            let i = key_index(e0, k);
                            let e1b = e0.remove(i);
                            assert(ef[p] == e1b[p - 1] && ef[q] == e1b[q - 1]);
                            let pp = if p - 1 < i { p - 1 } else { p };
                            let qq = if q - 1 < i { q - 1 } else { q };
                            assert(e1b[p - 1] == e0[pp] && e1b[q - 1] == e0[qq]);
                        } else {
                            assert(ef[p] == e0[p - 1] && ef[q] == e0[q - 1]);
                        }
                    }
                }
            }
        }
        window
    }

    /// Close a turn: append the assistant reply to the conversation
    /// and stamp the times.  A conversation evicted in the meantime
    /// is left alone.
    pub fn complete_turn(&mut self, conv_id: &String, reply: &String, now: u64)
        requires
            old(self).wf(),
        ensures
            final(self).wf(),
            final(self).ttl_ms == old(self).ttl_ms,
            ({
                let e0 = lru_entries(&old(self).table);
                let k = conv_id@;
                &&& (has_key(e0, k) ==> ({
                    let i = key_index(e0, k);
                    let msgs = e0[i].1.1.push(("assistant"@, reply@, now));
                    lru_entries(&final(self).table) == seq![(k, (k, msgs, e0[i].1.2, now, now))]
                        + e0.remove(i)
                }))
                &&& (!has_key(e0, k) ==> lru_entries(&final(self).table) == e0)
            }),
    {
        let ghost e0 = lru_entries(&old(self).table);
        let ghost k = conv_id@;
        let popped = lru_pop(&mut self.table, conv_id);
        match popped {
            Some(mut entry) => {
                proof {
                    assert(has_key(e0, k));
                    assert(entry_view(entry) == e0[key_index(e0, k)].1);
                }
                let assistant_msg = Message {
                    role: String::from_str("assistant"),
                    content: reply.clone(),
                    timestamp_ms: now,
                };
                let ghost mprev = entry.conversation.messages@;
                entry.conversation.messages.push(assistant_msg);
                proof {
                    assert(msgs_view(entry.conversation.messages@) =~= msgs_view(mprev).push(
                        ("assistant"@, reply@, now),
                    ));
                }
                entry.conversation.updated_at_ms = now;
                entry.last_accessed_ms = now;
                let ghost e1 = lru_entries(&self.table);
                let ghost ev = entry_view(entry);
                proof {
                    assert(e1 == e0.remove(key_index(e0, k)));
                    assert(!has_key(e1, k)) by {
                        let i = key_index(e0, k);
                        assert forall|j: int| 0 <= j < e1.len() implies e1[j].0 != k by {
                            if j < i {
                                assert(e1[j] == e0[j]);
                            } else {
                                assert(e1[j] == e0[j + 1]);
                            }
                        }
                    }
                    assert(e1.len() < lru_cap(&self.table));
                }
                let _ = lru_push(&mut self.table, conv_id.clone(), entry);
                proof {
                    let ef = lru_entries(&self.table);
                    let i = key_index(e0, k);
                    let e1b = e0.remove(i);
                    assert(ef == seq![(k, ev)] + e1b);
                    assert(keys_unique(ef)) by {
                        assert forall|p: int, q: int| 0 <= p < q < ef.len() implies ef[p].0
                            != ef[q].0 by {
                            if p == 0 {
                                assert(ef[q] == e1b[q - 1]);
                                if q - 1 < i {
                                    assert(e1b[q - 1] == e0[q - 1]);
                                } else {
                                    assert(e1b[q - 1] == e0[q]);
                                }
                            } else {
                                assert(ef[p] == e1b[p - 1] && ef[q] == e1b[q - 1]);
                                let pp = if p - 1 < i { p - 1 } else { p };
                                let qq = if q - 1 < i { q - 1 } else { q };
                                assert(e1b[p - 1] == e0[pp] && e1b[q - 1] == e0[qq]);
                            }
                        }
                    }
                }
            },
            None => {
                proof {
                    assert(lru_entries(&self.table) == e0);
                }
            },
        }
    }

    /// A conversation entry still within its idle TTL at `now`.
    pub open spec fn fresh_at(p: (Seq<char>, ConvVal), now: u64, ttl_ms: u64) -> bool {
        now <= p.1.4 + ttl_ms
    }

    /// Drop every conversation whose idle time exceeds the TTL.
    /// Fresh entries survive unchanged; nothing else survives.
    pub fn sweep(&mut self, now: u64)
        requires
            old(self).wf(),
        ensures
            final(self).wf(),
            final(self).ttl_ms == old(self).ttl_ms,
            forall|i: int|
                0 <= i < lru_entries(&final(self).table).len() ==> lru_entries(
                    &old(self).table,
                ).contains(#[trigger] lru_entries(&final(self).table)[i]),
            forall|i: int|
                0 <= i < lru_entries(&final(self).table).len() ==> Self::fresh_at(
                    #[trigger] lru_entries(&final(self).table)[i],
                    now,
                    old(self).ttl_ms,
                ),
            forall|j: int|
                0 <= j < lru_entries(&old(self).table).len() && Self::fresh_at(
                    #[trigger] lru_entries(&old(self).table)[j],
                    now,
                    old(self).ttl_ms,
                ) ==> lru_entries(&final(self).table).contains(lru_entries(&old(self).table)[j]),
    {
        let ghost e0 = lru_entries(&old(self).table);
        let ttl = self.ttl_ms;
        let mut changed = true;
        while changed
            invariant
                self.wf(),
                self.ttl_ms == old(self).ttl_ms,
                ttl == old(self).ttl_ms,
                forall|i: int|
                    0 <= i < lru_entries(&self.table).len() ==> e0.contains(
                        #[trigger] lru_entries(&self.table)[i],
                    ),
                forall|j: int|
                    0 <= j < e0.len() && Self::fresh_at(#[trigger] e0[j], now, ttl) ==> lru_entries(
                        &self.table,
                    ).contains(e0[j]),
                !changed ==> forall|i: int|
                    0 <= i < lru_entries(&self.table).len() ==> Self::fresh_at(
                        #[trigger] lru_entries(&self.table)[i],
                        now,
                        ttl,
                    ),
            decreases lru_entries(&self.table).len() + (if changed {
                1int
            } else {
                0int
            }),
        {
            changed = false;
            let snap = lru_snapshot(&self.table);
            let mut idx: usize = 0;
            let mut found: bool = false;
            let mut found_idx: usize = 0;
            while idx < snap.len()
                invariant
                    idx <= snap@.len(),
                    snap@.len() == lru_entries(&self.table).len(),
                    forall|i: int|
                        0 <= i < snap@.len() ==> (#[trigger] snap@[i]).0@ == lru_entries(
                            &self.table,
                        )[i].0 && snap@[i].1 == lru_entries(&self.table)[i].1.4,
                    !found ==> forall|i: int|
                        0 <= i < idx ==> Self::fresh_at(
                            #[trigger] lru_entries(&self.table)[i],
                            now,
                            ttl,
                        ),
                    found ==> (found_idx < snap@.len() && !Self::fresh_at(
                        lru_entries(&self.table)[found_idx as int],
                        now,
                        ttl,
                    )),
                decreases snap@.len() - idx,
            {
                let last = snap[idx].1;
                if now > last && now - last > ttl {
                    found = true;
                    found_idx = idx;
                    idx = snap.len();
                } else {
                    proof {
                        assert(Self::fresh_at(lru_entries(&self.table)[idx as int], now, ttl));
                    }
                    idx += 1;
                }
            }
            if found {
                let ghost ecur = lru_entries(&self.table);
                let key = &snap[found_idx].0;
                proof {
                    assert(ecur[found_idx as int].0 == key@);
                    assert(has_key(ecur, key@));
                    assert(key_index(ecur, key@) == found_idx as int) by {
                        let i = key_index(ecur, key@);
                        assert(ecur[i].0 == key@);
                        if i != found_idx as int {
                            assert(ecur[i].0 != ecur[found_idx as int].0);
                        }
                    }
                }
                let _ = lru_pop(&mut self.table, key);
                changed = true;
                proof {
                    let enext = lru_entries(&self.table);
                    assert(enext == ecur.remove(found_idx as int));
                    assert forall|i: int|
                        0 <= i < enext.len() implies e0.contains(#[trigger] enext[i]) by {
                        if i < found_idx as int {
                            assert(enext[i] == ecur[i]);
                        } else {
                            assert(enext[i] == ecur[i + 1]);
                        }
                    }
                    assert forall|j: int|
                        0 <= j < e0.len() && Self::fresh_at(#[trigger] e0[j], now, ttl) implies
                        enext.contains(e0[j]) by {
                        assert(ecur.contains(e0[j]));
                        let m = choose|m: int| 0 <= m < ecur.len() && ecur[m] == e0[j];
                        assert(m != found_idx as int) by {
                            assert(!Self::fresh_at(ecur[found_idx as int], now, ttl));
                        }
                        if m < found_idx as int {
                            assert(enext[m] == ecur[m]);
                        } else {
                            assert(enext[m - 1] == ecur[m]);
                        }
                    }
                    assert(keys_unique(enext)) by {
                        assert forall|p: int, q: int| 0 <= p < q < enext.len() implies enext[p].0
                            != enext[q].0 by {
                            let f = found_idx as int;
                            let pp = if p < f { p } else { p + 1 };
                            let qq = if q < f { q } else { q + 1 };
                            assert(enext[p] == ecur[pp] && enext[q] == ecur[qq]);
                        }
                    }
                }
            }
        }
    }
}


/// A cached reply for one `(conversation id, message)` pair.
#[derive(Debug)]
pub struct CachedReply {
    pub conversation_id: String,
    pub message: String,
    pub reply: String,
    pub cached_at_ms: u64,
}

/// Bound on cached replies.
pub const REPLY_CACHE_CAPACITY: usize = 500;

/// An entry of the reply cache matches the request pair.
pub open spec fn reply_match(e: CachedReply, cid: Seq<char>, msg: Seq<char>) -> bool {
    e.conversation_id@ == cid && e.message@ == msg
}

/// Some entry matches the pair.
pub open spec fn has_reply(s: Seq<CachedReply>, cid: Seq<char>, msg: Seq<char>) -> bool {
    exists|i: int| 0 <= i < s.len() && reply_match(#[trigger] s[i], cid, msg)
}

/// The index of the matching entry.
pub open spec fn reply_index(s: Seq<CachedReply>, cid: Seq<char>, msg: Seq<char>) -> int {
    choose|i: int| 0 <= i < s.len() && reply_match(#[trigger] s[i], cid, msg)
}

/// Bounded most-recent-first reply cache with a TTL; at most one
/// entry per `(conversation id, message)` pair.
pub struct ReplyCache {
    pub entries: Vec<CachedReply>,
    pub capacity: usize,
    pub ttl_ms: u64,
}

impl ReplyCache {
    /// Well-formedness: within capacity and one entry per pair.
    pub open spec fn wf(&self) -> bool {
        &&& self.capacity >= 1
        &&& self.entries@.len() <= self.capacity
        &&& forall|i: int, j: int|
            0 <= i < j < self.entries@.len() ==> !(reply_match(
                #[trigger] self.entries@[i],
                (#[trigger] self.entries@[j]).conversation_id@,
                self.entries@[j].message@,
            ))
    }

    /// What a lookup of the pair yields at time `now`: the stored
    /// reply while its entry is within the TTL, nothing otherwise.
    pub open spec fn spec_get(&self, cid: Seq<char>, msg: Seq<char>, now: u64) -> Option<
        Seq<char>,
    > {
        if has_reply(self.entries@, cid, msg) && now <= self.entries@[reply_index(
            self.entries@,
            cid,
            msg,
        )].cached_at_ms + self.ttl_ms {
            Some(self.entries@[reply_index(self.entries@, cid, msg)].reply@)
        } else {
            None
        }
    }

    /// A fresh cache with the given capacity and TTL.
    pub fn new(capacity: usize, ttl_ms: u64) -> (cache: ReplyCache)
        requires
            capacity >= 1,
        ensures
            cache.wf(),
            cache.entries@.len() == 0,
            cache.capacity == capacity,
            cache.ttl_ms == ttl_ms,
    {
        ReplyCache { entries: Vec::new(), capacity, ttl_ms }
    }

    /// Look up the reply cached for this pair: a hit only while the
    /// entry is within the TTL.
    pub fn get(&self, conversation_id: &String, message: &String, now: u64) -> (reply: Option<
        String,
    >)
        requires
            self.wf(),
        ensures
            reply is Some <==> self.spec_get(conversation_id@, message@, now) is Some,
            reply matches Some(r) ==> self.spec_get(conversation_id@, message@, now) == Some(r@),
    {
        let ghost cid = conversation_id@;
        let ghost msg = message@;
        let n = self.entries.len();
        let mut i: usize = 0;
        while i < n
            invariant
                i <= n,
                n == self.entries@.len(),
                self.wf(),
                cid == conversation_id@,
                msg == message@,
                forall|j: int| 0 <= j < i ==> !reply_match(#[trigger] self.entries@[j], cid, msg),
            decreases n - i,
        {
            let e = &self.entries[i];
            if e.conversation_id.eq(conversation_id) && e.message.eq(message) {
                proof {
                    assert(reply_match(self.entries@[i as int], cid, msg));
                    assert(reply_index(self.entries@, cid, msg) == i as int) by {
                        let k = reply_index(self.entries@, cid, msg);
                        if k != i as int {
                            assert(reply_match(self.entries@[k], cid, msg));
                        }
                    }
                }
                let fresh = now <= e.cached_at_ms || now - e.cached_at_ms <= self.ttl_ms;
                if fresh {
                    return Some(e.reply.clone());
                } else {
                    return None;
                }
            }
            i += 1;
        }
        proof {
            assert(!has_reply(self.entries@, cid, msg));
        }
        None
    }

    /// Store the reply for this pair: any previous entry for the
    /// pair is dropped, the new entry goes in front, and the oldest
    /// entry falls out when the cache would exceed its capacity.
    pub fn put(&mut self, conversation_id: String, message: String, reply: String, now: u64)
        requires
            old(self).wf(),
        ensures
            final(self).wf(),
            final(self).capacity == old(self).capacity,
            final(self).ttl_ms == old(self).ttl_ms,
            final(self).entries@.len() > 0,
            reply_match(final(self).entries@[0], conversation_id@, message@),
            final(self).entries@[0].reply@ == reply@,
            final(self).entries@[0].cached_at_ms == now,
            final(self).spec_get(conversation_id@, message@, now) == Some(reply@),
    {
        let ghost cid = conversation_id@;
        let ghost msg = message@;
        // drop any previous entry for the pair
        let n = self.entries.len();
        let mut i: usize = 0;
        let mut dup: bool = false;
        let mut dup_idx: usize = 0;
        while i < n
            invariant
                i <= n,
                n == self.entries@.len(),
                cid == conversation_id@,
                msg == message@,
                !dup ==> forall|j: int|
                    0 <= j < i ==> !reply_match(#[trigger] self.entries@[j], cid, msg),
                dup ==> (dup_idx < n && reply_match(self.entries@[dup_idx as int], cid, msg)),
                self == old(self),
            decreases n - i,
        {
            let e = &self.entries[i];
            if e.conversation_id.eq(&conversation_id) && e.message.eq(&message) {
                dup = true;
                dup_idx = i;
                i = n;
            } else {
                i += 1;
            }
        }
        let ghost e0 = self.entries@;
        if dup {
            self.entries.remove(dup_idx);
        }
        let ghost e1 = self.entries@;
        proof {
            if dup {
                assert(e1 == e0.remove(dup_idx as int));
            } else {
                assert(e1 == e0);
                assert(!has_reply(e0, cid, msg));
            }
        }
        // make room
        let dropped_last = self.entries.len() >= self.capacity;
        if dropped_last {
            let keep = self.entries.len() - 1;
            self.entries.truncate(keep);
            proof {
                assert(self.entries@ =~= e1.drop_last());
            }
        }
        let ghost e2 = self.entries@;
        // prepend the fresh entry
        let fresh = CachedReply {
            conversation_id,
            message,
            reply,
            cached_at_ms: now,
        };
        self.entries.insert(0, fresh);
        proof {
            let ef = self.entries@;
            assert(ef[0].conversation_id@ == cid && ef[0].message@ == msg);
            assert(forall|j: int| 1 <= j < ef.len() ==> ef[j] == e2[j - 1]);
            assert forall|j: int| 1 <= j < ef.len() implies !reply_match(
                #[trigger] ef[j],
                cid,
                msg,
            ) by {
                if dup {
                    let d = dup_idx as int;
                    if j - 1 < d {
                        assert(e1[j - 1] == e0[j - 1]);
                    }
                    assert(old(self).wf());
                } else {
                    assert(!has_reply(e0, cid, msg));
                    assert(e2[j - 1] == e0[j - 1] || e2[j - 1] == e1[j - 1]);
                }
            }
            assert(reply_index(ef, cid, msg) == 0) by {
                let k = reply_index(ef, cid, msg);
                assert(reply_match(ef[0], cid, msg));
                if k != 0 {
                    assert(reply_match(ef[k], cid, msg));
                }
            }
            assert(final(self).wf()) by {
                assert forall|p: int, q: int| 0 <= p < q < ef.len() implies !reply_match(
                    #[trigger] ef[p],
                    (#[trigger] ef[q]).conversation_id@,
                    ef[q].message@,
                ) by {
                    if p == 0 {
                        assert(!reply_match(ef[q], cid, msg));
                    } else {
                        assert(ef[p] == e2[p - 1] && ef[q] == e2[q - 1]);
                        let pp = if dup && p - 1 >= dup_idx as int { p } else { p - 1 };
                        let qq = if dup && q - 1 >= dup_idx as int { q } else { q - 1 };
                        assert(e2[p - 1] == e0[pp] && e2[q - 1] == e0[qq]);
                    }
                }
            }
        }
    }
}

} // verus!
