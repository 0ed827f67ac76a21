//! In-memory conversation, context and long-term memory.

use vstd::prelude::*;
use crate::message::{Message, clone_messages};
use crate::store::{
    StrMap, lookup_key, store_key, remove_key, keys_unique, list_entries, list_or_empty,
    lemma_list_entries, text_entries, lemma_text_entries, lemma_key_index, law_store_then_lookup,
};
use crate::text::{str_contains, contains_seq};

verus! {

/// A long-term memory entry.
#[derive(Debug)]
pub struct MemoryEntry {
    /// Unique id.
    pub id: String,
    /// Remembered text.
    pub content: String,
    /// Optional metadata, as JSON text.
    pub metadata: Option<String>,
    /// Creation time, in seconds since the Unix epoch.
    pub created_at: u64,
}

impl Clone for MemoryEntry {
    fn clone(&self) -> (r: Self)
        ensures
            r == *self,
    {
        let metadata = match &self.metadata {
            Some(m) => Some(m.clone()),
            None => None,
        };
        MemoryEntry { id: self.id.clone(), content: self.content.clone(), metadata, created_at: self.created_at }
    }
}

impl MemoryEntry {
    /// An entry without metadata.
    pub fn new(id: &str, content: &str, created_at: u64) -> (r: MemoryEntry)
        ensures
            r.id@ == id@,
            r.content@ == content@,
            r.metadata is None,
            r.created_at == created_at,
    {
        MemoryEntry { id: id.to_owned(), content: content.to_owned(), metadata: None, created_at }
    }
}

/// The entries whose content contains `query`, in order.
pub open spec fn matching(entries: Seq<MemoryEntry>, query: Seq<char>) -> Seq<MemoryEntry>
    decreases entries.len(),
{
    if entries.len() == 0 {
        Seq::empty()
    } else if contains_seq(entries.last().content@, query) {
        matching(entries.drop_last(), query).push(entries.last())
    } else {
        matching(entries.drop_last(), query)
    }
}

/// What a recall returns: the first `limit` matching entries.
pub open spec fn recall_spec(entries: Seq<MemoryEntry>, query: Seq<char>, limit: nat) -> Seq<MemoryEntry> {
    let m = matching(entries, query);
    m.take(if limit <= m.len() { limit as int } else { m.len() as int })
}

/// The context of a session as key/value text.
pub open spec fn context_entries(ctx: Seq<(Seq<char>, StrMap<String>)>) -> Seq<(Seq<char>, Seq<(Seq<char>, Seq<char>)>)> {
    ctx.map_values(|e: (Seq<char>, StrMap<String>)| (e.0, text_entries(e.1.view_entries())))
}

/// The context value of `key` in session `session`.
pub open spec fn context_value(
    ctx: Seq<(Seq<char>, Seq<(Seq<char>, Seq<char>)>)>,
    session: Seq<char>,
    key: Seq<char>,
) -> Option<Seq<char>> {
    match lookup_key(ctx, session) {
        Some(kv) => lookup_key(kv, key),
        None => None,
    }
}

/// Conversation, working-context and long-term memory kept in memory.
pub struct InMemoryMemory {
    messages: StrMap<Vec<Message>>,
    context: StrMap<StrMap<String>>,
    long_term: Vec<MemoryEntry>,
}

impl InMemoryMemory {
    /// The messages of each session.
    pub closed spec fn sessions(&self) -> Seq<(Seq<char>, Seq<Message>)> {
        self.messages.lists()
    }

    /// The working context of each session.
    pub closed spec fn contexts(&self) -> Seq<(Seq<char>, Seq<(Seq<char>, Seq<char>)>)> {
        context_entries(self.context.view_entries())
    }

    /// The long-term entries, oldest first.
    pub closed spec fn long_term(&self) -> Seq<MemoryEntry> {
        self.long_term@
    }

    /// No session or key occurs twice.
    pub closed spec fn wf(&self) -> bool {
        &&& self.messages.wf()
        &&& self.context.wf()
        &&& forall|i: int| 0 <= i < self.context.view_entries().len()
            ==> (#[trigger] self.context.view_entries()[i]).1.wf()
    }

    /// An empty memory.
    pub fn new() -> (r: Self)
        ensures
            r.wf(),
            r.sessions() == Seq::<(Seq<char>, Seq<Message>)>::empty(),
            r.contexts() == Seq::<(Seq<char>, Seq<(Seq<char>, Seq<char>)>)>::empty(),
            r.long_term() == Seq::<MemoryEntry>::empty(),
    {
        let r = InMemoryMemory { messages: StrMap::new(), context: StrMap::new(), long_term: Vec::new() };
        proof {
            assert(r.sessions() =~= Seq::<(Seq<char>, Seq<Message>)>::empty());
            assert(r.contexts() =~= Seq::<(Seq<char>, Seq<(Seq<char>, Seq<char>)>)>::empty());
        }
        r
    }

    /// The messages of a session (none for an unknown session).
    pub fn messages(&self, session_id: &str) -> (r: Vec<Message>)
        ensures
            r@ == list_or_empty(self.sessions(), session_id@),
    {
        proof {
            lemma_list_entries(self.messages.view_entries(), session_id@, arbitrary());
        }
        match self.messages.get(session_id) {
            Some(list) => clone_messages(list.as_slice()),
            None => Vec::new(),
        }
    }

    /// Append a message to a session, creating the session if needed.
    pub fn append(&mut self, session_id: &str, message: Message)
        requires
            old(self).wf(),
        ensures
            final(self).wf(),
            final(self).sessions() == store_key(
                old(self).sessions(),
                session_id@,
                list_or_empty(old(self).sessions(), session_id@).push(message),
            ),
            final(self).contexts() == old(self).contexts(),
            final(self).long_term() == old(self).long_term(),
    {
        self.messages.push_value(session_id, message);
    }

    /// The context value of `key` in a session.
    pub fn get_context(&self, session_id: &str, key: &str) -> (r: Option<String>)
        ensures
            match r {
                Some(v) => context_value(self.contexts(), session_id@, key@) == Some(v@),
                None => context_value(self.contexts(), session_id@, key@) is None,
            },
    {
        proof {
            lemma_context_lookup(self.context.view_entries(), session_id@);
        }
        match self.context.get(session_id) {
            Some(inner) => {
                proof {
                    lemma_text_entries(inner.view_entries(), key@, arbitrary());
                }
                match inner.get(key) {
                    Some(v) => Some(v.clone()),
                    None => None,
                }
            },
            None => None,
        }
    }

    /// Set the context value of `key` in a session.
    pub fn set_context(&mut self, session_id: &str, key: &str, value: String)
        requires
            old(self).wf(),
        ensures
            final(self).wf(),
            context_value(final(self).contexts(), session_id@, key@) == Some(value@),
            forall|s: Seq<char>, k: Seq<char>| !(s == session_id@ && k == key@)
                ==> context_value(#[trigger] final(self).contexts(), s, k) == context_value(old(self).contexts(), s, k),
            final(self).sessions() == old(self).sessions(),
            final(self).long_term() == old(self).long_term(),
    {
        let ghost c0 = self.context.view_entries();
        proof {
            lemma_context_lookup(c0, session_id@);
            lemma_key_index(c0, session_id@);
        }
        let mut inner = match self.context.take(session_id) {
            Some(m) => m,
            None => StrMap::new(),
        };
        let ghost i0 = inner;
        proof {
            if lookup_key(c0, session_id@) is Some {
                assert(inner.wf());
            }
        }
        let ghost c1 = self.context.view_entries();
        proof {
            lemma_remove_keeps_inner_wf(c0, session_id@);
        }
        let v = value;
        proof {
            lemma_text_entries(i0.view_entries(), key@, v);
            law_store_then_lookup(i0.view_entries(), key@, v, key@);
        }
        inner.insert(key, v);
        let ghost i1 = inner;
        self.context.insert(session_id, inner);
        proof {
            let c2 = self.context.view_entries();
            assert(c2 == store_key(c1, session_id@, i1));
            law_store_then_lookup(c1, session_id@, i1, session_id@);
            lemma_store_keeps_inner_wf(c1, session_id@, i1);
            lemma_context_lookup(c2, session_id@);
            lemma_text_entries(i1.view_entries(), key@, v);
            assert forall|s: Seq<char>, k: Seq<char>| !(s == session_id@ && k == key@)
                implies context_value(#[trigger] context_entries(c2), s, k) == context_value(context_entries(c0), s, k) by {
                lemma_context_lookup(c0, s);
                lemma_context_lookup(c1, s);
                lemma_context_lookup(c2, s);
                law_store_then_lookup(c1, session_id@, i1, s);
                lemma_remove_lookup(c0, session_id@, s);
                if s == session_id@ {
                    lemma_text_entries(i1.view_entries(), k, v);
                    lemma_text_entries(i0.view_entries(), k, v);
                    law_store_then_lookup(i0.view_entries(), key@, v, k);
                    if lookup_key(c0, session_id@) is None {
                        assert(i0.view_entries() =~= Seq::<(Seq<char>, String)>::empty());
                    }
                }
            }
        }
    }

    /// Entries whose content contains `query`, at most `limit` of them, oldest
    /// first. An empty query matches every entry.
    pub fn recall(&self, query: &str, limit: usize) -> (r: Vec<MemoryEntry>)
        ensures
            r@ == recall_spec(self.long_term(), query@, limit as nat),
    {
        let mut out: Vec<MemoryEntry> = Vec::new();
        let mut i: usize = 0;
        while i < self.long_term.len() && out.len() < limit
            invariant
                i <= self.long_term@.len(),
                out@ == matching(self.long_term@.take(i as int), query@),
                out@.len() <= limit,
            decreases self.long_term@.len() - i,
        {
            proof {
                let t = self.long_term@.take(i as int + 1);
                assert(t.drop_last() =~= self.long_term@.take(i as int));
                assert(t.last() == self.long_term@[i as int]);
            }
            if str_contains(self.long_term[i].content.as_str(), query) {
                out.push(self.long_term[i].clone());
            }
            i = i + 1;
        }
        proof {
            lemma_matching_prefix(self.long_term@, query@, i as int);
            if i == self.long_term@.len() {
                assert(self.long_term@.take(i as int) =~= self.long_term@);
            }
            let m = matching(self.long_term@, query@);
            assert(out@ =~= m.take(if limit <= m.len() { limit as int } else { m.len() as int }));
        }
        out
    }

    /// Store a long-term entry.
    pub fn store(&mut self, entry: MemoryEntry)
        ensures
            final(self).long_term() == old(self).long_term().push(entry),
            final(self).sessions() == old(self).sessions(),
            final(self).contexts() == old(self).contexts(),
            final(self).wf() == old(self).wf(),
    {
        self.long_term.push(entry);
    }

    /// Open session `id` (which the caller generates): it appears in the
    /// session list with no messages; an existing session is kept as is.
    pub fn create_session(&mut self, id: &str) -> (r: String)
        requires
            old(self).wf(),
        ensures
            r@ == id@,
            final(self).wf(),
            final(self).sessions() == (if lookup_key(old(self).sessions(), id@) is Some {
                old(self).sessions()
            } else {
                old(self).sessions().push((id@, Seq::<Message>::empty()))
            }),
            final(self).contexts() == old(self).contexts(),
            final(self).long_term() == old(self).long_term(),
    {
        proof {
            lemma_list_entries(self.messages.view_entries(), id@, arbitrary());
            lemma_key_index(self.messages.view_entries(), id@);
        }
        if !self.messages.contains_key(id) {
            let ghost v0 = self.messages.view_entries();
            let empty: Vec<Message> = Vec::new();
            proof {
                lemma_list_entries(v0, id@, empty);
                lemma_key_index(list_entries(v0), id@);
            }
            self.messages.insert(id, empty);
            proof {
                assert(list_entries(store_key(v0, id@, empty)) =~= list_entries(v0).push((id@, Seq::<Message>::empty())));
            }
        }
        id.to_owned()
    }

    /// The ids of all sessions, oldest first.
    pub fn list_sessions(&self) -> (r: Vec<String>)
        ensures
            r@.map_values(|k: String| k@) == self.sessions().map_values(|e: (Seq<char>, Seq<Message>)| e.0),
    {
        let r = self.messages.keys();
        proof {
            assert(self.sessions().map_values(|e: (Seq<char>, Seq<Message>)| e.0)
                =~= self.messages.view_entries().map_values(|e: (Seq<char>, Vec<Message>)| e.0));
        }
        r
    }

    /// Forget a session's messages and context.
    pub fn delete_session(&mut self, session_id: &str)
        requires
            old(self).wf(),
        ensures
            final(self).wf(),
            final(self).sessions() == remove_key(old(self).sessions(), session_id@),
            final(self).contexts() == remove_key(old(self).contexts(), session_id@),
            final(self).long_term() == old(self).long_term(),
    {
        let ghost m0 = self.messages.view_entries();
        let ghost c0 = self.context.view_entries();
        proof {
            lemma_list_entries(m0, session_id@, arbitrary());
            lemma_context_entries_remove(c0, session_id@);
            lemma_remove_keeps_inner_wf(c0, session_id@);
        }
        self.messages.remove(session_id);
        self.context.remove(session_id);
    }
}

impl Default for InMemoryMemory {
    fn default() -> (r: Self)
        ensures
            r.wf(),
            r.sessions() == Seq::<(Seq<char>, Seq<Message>)>::empty(),
            r.contexts() == Seq::<(Seq<char>, Seq<(Seq<char>, Seq<char>)>)>::empty(),
            r.long_term() == Seq::<MemoryEntry>::empty(),
    {
        InMemoryMemory::new()
    }
}

proof fn lemma_context_lookup(c: Seq<(Seq<char>, StrMap<String>)>, session: Seq<char>)
    ensures
        lookup_key(context_entries(c), session) == (match lookup_key(c, session) {
            Some(m) => Some(text_entries(m.view_entries())),
            None => None,
        }),
        (forall|i: int| 0 <= i < c.len() ==> (#[trigger] c[i]).1.wf()) ==> (match lookup_key(c, session) {
            Some(m) => m.wf(),
            None => true,
        }),
    decreases c.len(),
{
    if c.len() > 0 {
        lemma_context_lookup(c.drop_first(), session);
        assert(context_entries(c).drop_first() =~= context_entries(c.drop_first()));
        if forall|i: int| 0 <= i < c.len() ==> (#[trigger] c[i]).1.wf() {
            assert forall|i: int| 0 <= i < c.drop_first().len() implies (#[trigger] c.drop_first()[i]).1.wf() by {
                assert(c.drop_first()[i] == c[i + 1]);
            }
        }
    }
}

proof fn lemma_remove_lookup<V>(s: Seq<(Seq<char>, V)>, key: Seq<char>, other: Seq<char>)
    requires
        keys_unique(s),
    ensures
        other != key ==> lookup_key(remove_key(s, key), other) == lookup_key(s, other),
        lookup_key(remove_key(s, key), key) is None,
{
    lemma_key_index(s, key);
    lemma_key_index(s, other);
    let t = remove_key(s, key);
    lemma_key_index(t, other);
    lemma_key_index(t, key);
    let i = crate::store::key_index(s, key);
    if i < s.len() {
        assert forall|j: int| 0 <= j < t.len() implies (#[trigger] t[j]).0 != key by {
            if j < i {
                assert(t[j] == s[j]);
            } else {
                assert(t[j] == s[j + 1]);
            }
        }
    }
    if other != key {
        let o = crate::store::key_index(s, other);
        if o < s.len() {
            if o < i {
                assert forall|j: int| 0 <= j < o implies (#[trigger] t[j]).0 != other by {
                    assert(t[j] == s[j]);
                }
                assert(t[o] == s[o]);
            } else {
                assert forall|j: int| 0 <= j < o - 1 implies (#[trigger] t[j]).0 != other by {
                    if j < i {
                        assert(t[j] == s[j]);
                    } else {
                        assert(t[j] == s[j + 1]);
                    }
                }
                assert(t[o - 1] == s[o]);
            }
        } else {
            assert forall|j: int| 0 <= j < t.len() implies (#[trigger] t[j]).0 != other by {
                if i < s.len() && j >= i {
                    assert(t[j] == s[j + 1]);
                } else {
                    assert(t[j] == s[j]);
                }
            }
        }
    }
}

proof fn lemma_remove_keeps_inner_wf(c: Seq<(Seq<char>, StrMap<String>)>, key: Seq<char>)
    ensures
        (forall|i: int| 0 <= i < c.len() ==> (#[trigger] c[i]).1.wf())
            ==> (forall|i: int| 0 <= i < remove_key(c, key).len() ==> (#[trigger] remove_key(c, key)[i]).1.wf()),
{
    lemma_key_index(c, key);
    let k = crate::store::key_index(c, key);
    if forall|i: int| 0 <= i < c.len() ==> (#[trigger] c[i]).1.wf() {
        let t = remove_key(c, key);
        assert forall|i: int| 0 <= i < t.len() implies (#[trigger] t[i]).1.wf() by {
            if k < c.len() && i >= k {
                assert(t[i] == c[i + 1]);
            } else {
                assert(t[i] == c[i]);
            }
        }
    }
}

proof fn lemma_store_keeps_inner_wf(c: Seq<(Seq<char>, StrMap<String>)>, key: Seq<char>, m: StrMap<String>)
    requires
        m.wf(),
        forall|i: int| 0 <= i < c.len() ==> (#[trigger] c[i]).1.wf(),
    ensures
        forall|i: int| 0 <= i < store_key(c, key, m).len() ==> (#[trigger] store_key(c, key, m)[i]).1.wf(),
{
    lemma_key_index(c, key);
    let t = store_key(c, key, m);
    assert forall|i: int| 0 <= i < t.len() implies (#[trigger] t[i]).1.wf() by {
        if i < c.len() && t[i] != c[i] {
            assert(t[i].1 == m);
        } else if i == c.len() {
            assert(t[i].1 == m);
        }
    }
}

proof fn lemma_context_entries_remove(c: Seq<(Seq<char>, StrMap<String>)>, key: Seq<char>)
    ensures
        crate::store::key_index(context_entries(c), key) == crate::store::key_index(c, key),
        context_entries(remove_key(c, key)) == remove_key(context_entries(c), key),
    decreases c.len(),
{
    if c.len() > 0 {
        lemma_context_entries_remove(c.drop_first(), key);
        assert(context_entries(c).drop_first() =~= context_entries(c.drop_first()));
    }
    lemma_key_index(c, key);
    lemma_key_index(context_entries(c), key);
    assert(context_entries(remove_key(c, key)) =~= remove_key(context_entries(c), key));
}

proof fn lemma_matching_prefix(entries: Seq<MemoryEntry>, query: Seq<char>, i: int)
    requires
        0 <= i <= entries.len(),
    ensures
        matching(entries.take(i), query).len() <= matching(entries, query).len(),
        matching(entries.take(i), query) == matching(entries, query).take(matching(entries.take(i), query).len() as int),
    decreases entries.len() - i,
{
    if i < entries.len() {
        lemma_matching_prefix(entries, query, i + 1);
        let a = entries.take(i);
        let b = entries.take(i + 1);
        assert(b.drop_last() =~= a);
        let mb = matching(b, query);
        let mf = matching(entries, query);
        assert(mf.take(matching(a, query).len() as int) =~= mb.take(matching(a, query).len() as int));
        if contains_seq(b.last().content@, query) {
            assert(mb.take(matching(a, query).len() as int) =~= matching(a, query));
        } else {
            assert(mb.take(matching(a, query).len() as int) =~= matching(a, query));
        }
    } else {
        assert(entries.take(i) =~= entries);
        assert(matching(entries, query).take(matching(entries, query).len() as int) =~= matching(entries, query));
    }
}

/// Reading a session back after an append gives its earlier messages and
/// then the new one; other sessions are unchanged.
pub proof fn law_append_then_read(
    sessions: Seq<(Seq<char>, Seq<Message>)>,
    session: Seq<char>,
    message: Message,
    other: Seq<char>,
)
    requires
        keys_unique(sessions),
    ensures
        list_or_empty(store_key(sessions, session, list_or_empty(sessions, session).push(message)), session)
            == list_or_empty(sessions, session).push(message),
        other != session ==> list_or_empty(
            store_key(sessions, session, list_or_empty(sessions, session).push(message)),
            other,
        ) == list_or_empty(sessions, other),
{
    law_store_then_lookup(sessions, session, list_or_empty(sessions, session).push(message), other);
}

/// After a session is deleted, reading it gives no messages and no context.
pub proof fn law_delete_forgets(
    sessions: Seq<(Seq<char>, Seq<Message>)>,
    contexts: Seq<(Seq<char>, Seq<(Seq<char>, Seq<char>)>)>,
    session: Seq<char>,
    key: Seq<char>,
)
    requires
        keys_unique(sessions),
        keys_unique(contexts),
    ensures
        list_or_empty(remove_key(sessions, session), session) == Seq::<Message>::empty(),
        context_value(remove_key(contexts, session), session, key) is None,
{
    lemma_remove_lookup(sessions, session, session);
    lemma_remove_lookup(contexts, session, session);
}

} // verus!
