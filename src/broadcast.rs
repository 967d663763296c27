use vstd::prelude::*;
use vstd::string::*;
use crate::reducers::Database;
use crate::tables::{Message, MessageView, RowEvent, RowEventView, User, UserView, events_view, lists_rows};

verus! {

/// The tables that a client watches.
#[derive(Clone, Copy, Debug, PartialEq, Eq)]
pub struct Subscription {
    pub users: bool,
    pub messages: bool,
}

pub open spec fn user_query() -> Seq<char> {
    "SELECT * FROM User;"@
}

pub open spec fn message_query() -> Seq<char> {
    "SELECT * FROM Message;"@
}

/// Whether query `q` is one that this core understands.
pub open spec fn known_query(q: Seq<char>) -> bool {
    q == user_query() || q == message_query()
}

/// Whether a subscription covers the table that an event touches.
pub open spec fn covers(sub: Subscription, e: RowEventView) -> bool {
    match e {
        RowEventView::InsertUser(_) | RowEventView::UpdateUser(_, _) | RowEventView::DeleteUser(_) => sub.users,
        _ => sub.messages,
    }
}

/// The users that a sequence of events inserts.
pub open spec fn inserted_users(evs: Seq<RowEventView>) -> Set<UserView> {
    Set::new(|u: UserView| exists|i: int| 0 <= i < evs.len() && evs[i] == RowEventView::InsertUser(u))
}

/// The rows of a `User` table.
pub open spec fn table_rows(m: Map<Seq<u8>, UserView>) -> Set<UserView> {
    Set::new(|u: UserView| exists|k: Seq<u8>| m.contains_key(k) && m[k] == u)
}

/// One insert event for each message, in order.
pub open spec fn message_inserts(m: Seq<MessageView>) -> Seq<RowEventView> {
    m.map_values(|v: MessageView| RowEventView::InsertMessage(v))
}

proof fn lemma_queries_differ()
    ensures
        user_query() != message_query(),
{
    reveal_strlit("SELECT * FROM User;");
    reveal_strlit("SELECT * FROM Message;");
    assert(user_query().len() != message_query().len());
}

impl Subscription {
    /// The subscription that a set of `SELECT * FROM <table>;` queries declares.
    /// The first query that names no known table is returned as the error, by index.
    pub fn from_queries(queries: &Vec<String>) -> (r: Result<Subscription, usize>)
        ensures
            r is Ok <==> forall|i: int| 0 <= i < queries@.len() ==> known_query(#[trigger] queries@[i]@),
            r matches Err(i) ==> i < queries@.len() && !known_query(queries@[i as int]@) && forall|j: int|
                0 <= j < i ==> known_query(#[trigger] queries@[j]@),
            r matches Ok(s) ==> (s.users <==> exists|i: int| 0 <= i < queries@.len() && queries@[i]@ == user_query())
                && (s.messages <==> exists|i: int| 0 <= i < queries@.len() && queries@[i]@ == message_query()),
    {
        let user_q = String::from_str("SELECT * FROM User;");
        let message_q = String::from_str("SELECT * FROM Message;");
        let mut users = false;
        let mut messages = false;
        let mut i: usize = 0;
        while i < queries.len()
            invariant
                i <= queries@.len(),
                user_q@ == user_query(),
                message_q@ == message_query(),
                forall|j: int| 0 <= j < i ==> known_query(#[trigger] queries@[j]@),
                users <==> exists|j: int| 0 <= j < i && queries@[j]@ == user_query(),
                messages <==> exists|j: int| 0 <= j < i && queries@[j]@ == message_query(),
            decreases queries@.len() - i,
        {
            let ghost q = queries@[i as int]@;
            if queries[i] == user_q {
                users = true;
            } else if queries[i] == message_q {
                messages = true;
            } else {
                return Err(i);
            }
            i = i + 1;
            proof {
                lemma_queries_differ();
                if q == user_query() {
                    assert(queries@[i - 1]@ == user_query());
                }
                if q == message_query() {
                    assert(queries@[i - 1]@ == message_query());
                }
                assert(users <==> exists|j: int| 0 <= j < i && queries@[j]@ == user_query());
                assert(messages <==> exists|j: int| 0 <= j < i && queries@[j]@ == message_query());
            }
        }
        Ok(Subscription { users, messages })
    }

    /// Whether this subscription covers the table that `e` touches.
    pub fn covers(&self, e: &RowEvent) -> (r: bool)
        ensures
            r == covers(*self, e@),
    {
        match e {
            RowEvent::InsertUser(_) | RowEvent::UpdateUser(_, _) | RowEvent::DeleteUser(_) => self.users,
            _ => self.messages,
        }
    }
}

/// The events of one commit that a subscriber receives, in commit order.
pub fn events_for(sub: &Subscription, deltas: &Vec<RowEvent>) -> (r: Vec<RowEvent>)
    ensures
        events_view(r@) == events_view(deltas@).filter(|e: RowEventView| covers(*sub, e)),
{
    let ghost pred = |e: RowEventView| covers(*sub, e);
    let mut r: Vec<RowEvent> = Vec::new();
    let mut i: usize = 0;
    while i < deltas.len()
        invariant
            i <= deltas@.len(),
            pred == (|e: RowEventView| covers(*sub, e)),
            events_view(r@) == events_view(deltas@.subrange(0, i as int)).filter(pred),
        decreases deltas@.len() - i,
    {
        let ghost prev = events_view(deltas@.subrange(0, i as int));
        let ghost next = events_view(deltas@.subrange(0, i + 1));
        proof {
            assert(next.drop_last() =~= prev);
            assert(next.last() == deltas@[i as int]@);
            reveal(Seq::filter);
        }
        if sub.covers(&deltas[i]) {
            r.push(deltas[i].clone_event());
            assert(events_view(r@) =~= events_view(r@.drop_last()).push(r@.last()@));
        }
        i = i + 1;
    }
    assert(deltas@.subrange(0, deltas@.len() as int) =~= deltas@);
    r
}

impl RowEvent {
    /// A copy of this event.
    pub fn clone_event(&self) -> (r: RowEvent)
        ensures
            r@ == self@,
    {
        match self {
            RowEvent::InsertUser(u) => RowEvent::InsertUser(u.duplicate()),
            RowEvent::UpdateUser(o, n) => RowEvent::UpdateUser(o.duplicate(), n.duplicate()),
            RowEvent::DeleteUser(u) => RowEvent::DeleteUser(u.duplicate()),
            RowEvent::InsertMessage(m) => RowEvent::InsertMessage(m.duplicate()),
            RowEvent::DeleteMessage(m) => RowEvent::DeleteMessage(m.duplicate()),
        }
    }
}

/// The initial state for a new subscription: one insert for every row that
/// it covers, users first, then messages in commit order.
pub fn snapshot(db: &Database, sub: &Subscription) -> (r: Vec<RowEvent>)
    requires
        db.wf(),
    ensures
        exists|n: int| {
            &&& 0 <= n <= r@.len()
            &&& forall|i: int| 0 <= i < n ==> events_view(r@)[i] is InsertUser
            &&& events_view(r@).subrange(n, r@.len() as int)
                == if sub.messages { message_inserts(db@.messages) } else { Seq::empty() }
        },
        inserted_users(events_view(r@)) == if sub.users { table_rows(db@.users) } else { Set::empty() },
{
    let mut r: Vec<RowEvent> = Vec::new();
    let users = db.users();
    if sub.users {
        let rows = users.scan();
        let mut i: usize = 0;
        while i < rows.len()
            invariant
                i <= rows@.len(),
                lists_rows(rows@, db@.users),
                r@.len() == i,
                forall|j: int| 0 <= j < i ==> events_view(r@)[j] == RowEventView::InsertUser(#[trigger] rows@[j]@),
            decreases rows@.len() - i,
        {
            r.push(RowEvent::InsertUser(rows[i].duplicate()));
            i = i + 1;
        }
        let ghost ev = events_view(r@);
        assert(inserted_users(ev) =~= table_rows(db@.users)) by {
            assert forall|u: UserView| #[trigger] inserted_users(ev).contains(u) implies table_rows(db@.users).contains(u) by {
                let j = choose|j: int| 0 <= j < ev.len() && ev[j] == RowEventView::InsertUser(u);
                assert(ev[j] == RowEventView::InsertUser(rows@[j]@));
                assert(u == rows@[j]@);
                assert(db@.users.contains_key(rows@[j]@.identity));
                assert(db@.users[rows@[j]@.identity] == u);
            }
            assert forall|u: UserView| #[trigger] table_rows(db@.users).contains(u) implies inserted_users(ev).contains(u) by {
                let k = choose|k: Seq<u8>| db@.users.contains_key(k) && db@.users[k] == u;
                let j = choose|j: int| 0 <= j < rows@.len() && rows@[j]@.identity == k;
                assert(ev[j] == RowEventView::InsertUser(rows@[j]@));
            }
        }
        assert forall|j: int| 0 <= j < ev.len() implies ev[j] is InsertUser by {
            assert(ev[j] == RowEventView::InsertUser(rows@[j]@));
        }
    } else {
        assert(inserted_users(events_view(r@)) =~= Set::empty());
    }
    let n: usize = r.len();
    let ghost head = events_view(r@);
    assert(forall|j: int| 0 <= j < n ==> head[j] is InsertUser);
    assert(inserted_users(head) == if sub.users { table_rows(db@.users) } else { Set::<UserView>::empty() });
    if sub.messages {
        let msgs = db.messages();
        let mut i: usize = 0;
        while i < msgs.len()
            invariant
                i <= msgs@.len(),
                n <= r@.len(),
                r@.len() == n + i,
                msgs@.map_values(|m: Message| m@) == db@.messages,
                events_view(r@).subrange(0, n as int) == head,
                head.len() == n,
                forall|j: int| 0 <= j < n ==> head[j] is InsertUser,
                events_view(r@).subrange(n as int, r@.len() as int) == message_inserts(db@.messages).subrange(0, i as int),
            decreases msgs@.len() - i,
        {
            let ghost before = events_view(r@);
            r.push(RowEvent::InsertMessage(msgs[i].duplicate()));
            i = i + 1;
            assert(events_view(r@) =~= before.push(RowEventView::InsertMessage(msgs@[i - 1]@)));
            assert(events_view(r@).subrange(0, n as int) =~= before.subrange(0, n as int));
            assert(events_view(r@).subrange(n as int, r@.len() as int) =~= message_inserts(db@.messages).subrange(0, i as int));
        }
        assert(message_inserts(db@.messages).subrange(0, msgs@.len() as int) =~= message_inserts(db@.messages));
    }
    proof {
        let ev = events_view(r@);
        assert(ev.subrange(0, n as int) == head);
        assert forall|i: int| 0 <= i < n implies ev[i] is InsertUser by {
            assert(ev[i] == ev.subrange(0, n as int)[i]);
        }
        if !sub.messages {
            assert(ev.subrange(n as int, r@.len() as int) =~= Seq::<RowEventView>::empty());
        }
        assert(inserted_users(ev) =~= inserted_users(head)) by {
            assert forall|u: UserView| #[trigger] inserted_users(ev).contains(u) implies inserted_users(head).contains(u) by {
                let j = choose|j: int| 0 <= j < ev.len() && ev[j] == RowEventView::InsertUser(u);
                if j >= n {
                    assert(ev[j] == ev.subrange(n as int, r@.len() as int)[j - n]);
                }
                assert(head[j] == ev[j]);
            }
            assert forall|u: UserView| #[trigger] inserted_users(head).contains(u) implies inserted_users(ev).contains(u) by {
                let j = choose|j: int| 0 <= j < head.len() && head[j] == RowEventView::InsertUser(u);
                assert(head[j] == ev.subrange(0, n as int)[j]);
            }
        }
    }
    r
}

} // verus!
