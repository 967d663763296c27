use vstd::prelude::*;
use crate::tables::{Message, MessageView, RowEvent, RowEventView, User, UserTable, UserView};

verus! {

/// A client-side anomaly: the cache takes the server's event as truth and
/// carries on, but reports what it saw.
#[derive(Clone, Copy, Debug, PartialEq, Eq)]
pub enum CacheWarning {
    /// An insert for a key that was already cached; the row was replaced.
    DuplicateInsert,
    /// An update for a key that was not cached; the row was inserted.
    UpdateOfMissing,
    /// A delete of a row that was not cached; nothing changed.
    DeleteOfMissing,
}

/// The mathematical value of the local cache.
pub struct CacheView {
    pub users: Map<Seq<u8>, UserView>,
    pub messages: Seq<MessageView>,
}

/// `s` without its first element equal to `m`, if any.
pub open spec fn remove_first(s: Seq<MessageView>, m: MessageView) -> Seq<MessageView>
    decreases s.len(),
{
    if s.len() == 0 {
        s
    } else if s[0] == m {
        s.drop_first()
    } else {
        seq![s[0]] + remove_first(s.drop_first(), m)
    }
}

/// The cache after one event, and the warning it gives, if any.
pub open spec fn apply_spec(c: CacheView, e: RowEventView) -> (CacheView, Option<CacheWarning>) {
    match e {
        RowEventView::InsertUser(u) => (
            CacheView { users: c.users.insert(u.identity, u), messages: c.messages },
            if c.users.contains_key(u.identity) { Some(CacheWarning::DuplicateInsert) } else { None },
        ),
        RowEventView::UpdateUser(_, u) => (
            CacheView { users: c.users.insert(u.identity, u), messages: c.messages },
            if c.users.contains_key(u.identity) { None } else { Some(CacheWarning::UpdateOfMissing) },
        ),
        RowEventView::DeleteUser(u) => (
            CacheView { users: c.users.remove(u.identity), messages: c.messages },
            if c.users.contains_key(u.identity) { None } else { Some(CacheWarning::DeleteOfMissing) },
        ),
        RowEventView::InsertMessage(m) => (
            CacheView { users: c.users, messages: c.messages.push(m) },
            None,
        ),
        RowEventView::DeleteMessage(m) => (
            CacheView { users: c.users, messages: remove_first(c.messages, m) },
            if c.messages.contains(m) { None } else { Some(CacheWarning::DeleteOfMissing) },
        ),
    }
}

proof fn lemma_remove_first_at(s: Seq<MessageView>, m: MessageView, i: int)
    requires
        0 <= i < s.len(),
        s[i] == m,
        forall|j: int| 0 <= j < i ==> s[j] != m,
    ensures
        remove_first(s, m) == s.remove(i),
    decreases i,
{
    if i > 0 {
        lemma_remove_first_at(s.drop_first(), m, i - 1);
        assert(s.remove(i) =~= seq![s[0]] + s.drop_first().remove(i - 1));
    } else {
        assert(s.remove(0) =~= s.drop_first());
    }
}

proof fn lemma_remove_first_absent(s: Seq<MessageView>, m: MessageView)
    requires
        !s.contains(m),
    ensures
        remove_first(s, m) == s,
    decreases s.len(),
{
    if s.len() > 0 {
        assert(s[0] != m);
        assert forall|x: MessageView| s.drop_first().contains(x) implies s.contains(x) by {
            let j = choose|j: int| 0 <= j < s.drop_first().len() && s.drop_first()[j] == x;
            assert(s[j + 1] == x);
        }
        lemma_remove_first_absent(s.drop_first(), m);
        assert(seq![s[0]] + s.drop_first() =~= s);
    }
}

impl Message {
    /// Whether two messages are the same row.
    pub fn same_row(&self, other: &Message) -> (r: bool)
        ensures
            r == (self@ == other@),
    {
        self.sender.same_as(&other.sender) && self.sent.millis == other.sent.millis && self.text == other.text
    }
}

/// The index of the first message that is the same row as `m`.
fn position_of(messages: &Vec<Message>, m: &Message) -> (r: Option<usize>)
    ensures
        match r {
            Some(i) => i < messages@.len() && messages@[i as int]@ == m@ && forall|j: int|
                0 <= j < i ==> #[trigger] messages@[j]@ != m@,
            None => !messages@.map_values(|x: Message| x@).contains(m@),
        },
{
    let ghost s = messages@.map_values(|x: Message| x@);
    let mut i: usize = 0;
    while i < messages.len()
        invariant
            i <= messages@.len(),
            s == messages@.map_values(|x: Message| x@),
            forall|j: int| 0 <= j < i ==> #[trigger] messages@[j]@ != m@,
        decreases messages@.len() - i,
    {
        if messages[i].same_row(m) {
            return Some(i);
        }
        i = i + 1;
    }
    None
}

/// The client's mirror of the tables it subscribed to.
pub struct LocalCache {
    users: UserTable,
    messages: Vec<Message>,
}

impl View for LocalCache {
    type V = CacheView;

    closed spec fn view(&self) -> CacheView {
        CacheView { users: self.users@, messages: self.messages@.map_values(|m: Message| m@) }
    }
}

impl LocalCache {
    pub closed spec fn wf(&self) -> bool {
        self.users.wf()
    }

    pub fn new() -> (r: LocalCache)
        ensures
            r.wf(),
            r@.users == Map::<Seq<u8>, UserView>::empty(),
            r@.messages == Seq::<MessageView>::empty(),
    {
        let r = LocalCache { users: UserTable::new(), messages: Vec::new() };
        assert(r@.messages =~= Seq::<MessageView>::empty());
        r
    }

    /// The cached `User` table.
    pub fn users(&self) -> (r: &UserTable)
        requires
            self.wf(),
        ensures
            r.wf(),
            r@ == self@.users,
    {
        &self.users
    }

    /// The cached `Message` table, in arrival order.
    pub fn messages(&self) -> (r: &Vec<Message>)
        ensures
            r@.map_values(|m: Message| m@) == self@.messages,
    {
        &self.messages
    }

    /// Applies one row event. Anomalies never fail: the server's event is
    /// taken as truth and a warning is returned.
    pub fn apply(&mut self, e: RowEvent) -> (r: Option<CacheWarning>)
        requires
            old(self).wf(),
        ensures
            final(self).wf(),
            final(self)@.users == apply_spec(old(self)@, e@).0.users,
            final(self)@.messages == apply_spec(old(self)@, e@).0.messages,
            r == apply_spec(old(self)@, e@).1,
    {
        let ghost c = self@;
        match e {
            RowEvent::InsertUser(u) => {
                match self.users.insert(u.duplicate()) {
                    Ok(()) => None,
                    Err(_) => {
                        let _ = self.users.update_by_identity(u);
                        Some(CacheWarning::DuplicateInsert)
                    },
                }
            },
            RowEvent::UpdateUser(_, u) => {
                match self.users.update_by_identity(u.duplicate()) {
                    Ok(()) => None,
                    Err(_) => {
                        let _ = self.users.insert(u);
                        Some(CacheWarning::UpdateOfMissing)
                    },
                }
            },
            RowEvent::DeleteUser(u) => {
                match self.users.delete_by_identity(&u.identity) {
                    Ok(()) => None,
                    Err(_) => Some(CacheWarning::DeleteOfMissing),
                }
            },
            RowEvent::InsertMessage(m) => {
                let ghost mv = m@;
                self.messages.push(m);
                assert(self@.messages =~= c.messages.push(mv));
                None
            },
            RowEvent::DeleteMessage(m) => {
                let ghost s = c.messages;
                match position_of(&self.messages, &m) {
                    Some(i) => {
                        proof {
                            assert(s[i as int] == m@);
                            assert(s.contains(m@));
                            assert forall|j: int| 0 <= j < i implies s[j] != m@ by {
                                assert(s[j] == self.messages@[j]@);
                            }
                            lemma_remove_first_at(s, m@, i as int);
                        }
                        self.messages.remove(i);
                        assert(self@.messages =~= s.remove(i as int));
                        None
                    },
                    None => {
                        proof {
                            lemma_remove_first_absent(s, m@);
                        }
                        assert(self@.messages == s);
                        Some(CacheWarning::DeleteOfMissing)
                    },
                }
            },
        }
    }
}

/// Inserting, updating and then deleting the row of one key leaves no entry
/// for that key, whatever the cache held before.
pub proof fn lemma_insert_update_delete(c: CacheView, u1: UserView, u0: UserView, u2: UserView, u3: UserView)
    requires
        u2.identity == u1.identity,
        u3.identity == u1.identity,
    ensures
        ({
            let c1 = apply_spec(c, RowEventView::InsertUser(u1)).0;
            let c2 = apply_spec(c1, RowEventView::UpdateUser(u0, u2)).0;
            let c3 = apply_spec(c2, RowEventView::DeleteUser(u3)).0;
            &&& !c3.users.contains_key(u1.identity)
            &&& c3.users == c.users.remove(u1.identity)
            &&& c3.messages == c.messages
            &&& apply_spec(c1, RowEventView::UpdateUser(u0, u2)).1 is None
            &&& apply_spec(c2, RowEventView::DeleteUser(u3)).1 is None
        }),
{
    let c1 = apply_spec(c, RowEventView::InsertUser(u1)).0;
    let c2 = apply_spec(c1, RowEventView::UpdateUser(u0, u2)).0;
    let c3 = apply_spec(c2, RowEventView::DeleteUser(u3)).0;
    assert(c3.users =~= c.users.remove(u1.identity));
}

} // verus!
