use vstd::prelude::*;
use crate::identity::{Identity, Timestamp};
use crate::reducers::{
    Database, DatabaseView, ReducerContext, all_before, connect_spec, disconnect_spec, err_view,
    identity_connected, identity_disconnected, reason_empty_name, send_message, send_message_spec,
    set_name, set_name_spec, strictly_increasing,
};
use crate::tables::{Message, MessageView, RowEvent, RowEventView, User, UserView, events_view};

verus! {

/// A reducer invocation: which reducer, and its arguments.
#[derive(Clone, Debug, PartialEq, Eq)]
pub enum ReducerCall {
    SetName(String),
    SendMessage(String),
    Connect,
    Disconnect,
}

/// The mathematical value of a `ReducerCall`.
pub enum CallView {
    SetName(Seq<char>),
    SendMessage(Seq<char>),
    Connect,
    Disconnect,
}

impl View for ReducerCall {
    type V = CallView;

    open spec fn view(&self) -> CallView {
        match self {
            ReducerCall::SetName(s) => CallView::SetName(s@),
            ReducerCall::SendMessage(s) => CallView::SendMessage(s@),
            ReducerCall::Connect => CallView::Connect,
            ReducerCall::Disconnect => CallView::Disconnect,
        }
    }
}

impl ReducerCall {
    /// A copy of this call.
    pub fn duplicate(&self) -> (r: ReducerCall)
        ensures
            r@ == self@,
    {
        match self {
            ReducerCall::SetName(s) => ReducerCall::SetName(s.clone()),
            ReducerCall::SendMessage(s) => ReducerCall::SendMessage(s.clone()),
            ReducerCall::Connect => ReducerCall::Connect,
            ReducerCall::Disconnect => ReducerCall::Disconnect,
        }
    }
}

/// The outcome of a reducer invocation.
#[derive(Clone, Debug, PartialEq, Eq)]
pub enum Status {
    Committed,
    Failed(String),
}

/// The failure reason of a status, if any.
pub open spec fn status_view(s: Status) -> Option<Seq<char>> {
    match s {
        Status::Committed => None,
        Status::Failed(e) => Some(e@),
    }
}

/// Which reducer ran, for whom, when, and how it ended.
#[derive(Clone, Debug, PartialEq, Eq)]
pub struct ReducerEvent {
    pub caller: Identity,
    pub call: ReducerCall,
    pub status: Status,
    pub timestamp: Timestamp,
}

/// A finished invocation: its event, and the row changes it committed.
#[derive(Clone, Debug, PartialEq, Eq)]
pub struct Commit {
    pub event: ReducerEvent,
    pub deltas: Vec<RowEvent>,
}

/// The tables after a reducer invocation, and its failure reason, if any.
pub open spec fn reduce(d: DatabaseView, sender: Seq<u8>, ts: u64, call: CallView) -> (DatabaseView, Option<Seq<char>>) {
    match call {
        CallView::SetName(name) => set_name_spec(d, sender, name),
        CallView::SendMessage(text) => send_message_spec(d, sender, ts, text),
        CallView::Connect => (connect_spec(d, sender), None),
        CallView::Disconnect => (disconnect_spec(d, sender), None),
    }
}

/// The change to the row of `id` between two versions of the `User` table.
pub open spec fn user_change(before: Map<Seq<u8>, UserView>, after: Map<Seq<u8>, UserView>, id: Seq<u8>) -> Seq<RowEventView> {
    if before.contains_key(id) && after.contains_key(id) {
        seq![RowEventView::UpdateUser(before[id], after[id])]
    } else if after.contains_key(id) {
        seq![RowEventView::InsertUser(after[id])]
    } else {
        Seq::empty()
    }
}

/// The row changes that an invocation commits: none when it fails.
pub open spec fn deltas_spec(d: DatabaseView, sender: Seq<u8>, ts: u64, call: CallView) -> Seq<RowEventView> {
    let (after, err) = reduce(d, sender, ts, call);
    if err is Some {
        Seq::empty()
    } else {
        match call {
            CallView::SendMessage(_) => seq![RowEventView::InsertMessage(after.messages.last())],
            _ => user_change(d.users, after.users, sender),
        }
    }
}

/// The timestamp for an invocation that starts at `now` after the one last
/// assigned: `now`, or one past the last when `now` is not later.
pub open spec fn next_timestamp(last: u64, now: u64) -> int {
    if now > last { now as int } else { last + 1 }
}

/// The row changes for the caller's `User` row.
fn user_deltas(before: Option<User>, after: Option<User>) -> (r: Vec<RowEvent>)
    ensures
        after is None ==> r@.len() == 0,
        after is Some && before is Some ==> events_view(r@) == seq![RowEventView::UpdateUser(before.unwrap()@, after.unwrap()@)],
        after is Some && before is None ==> events_view(r@) == seq![RowEventView::InsertUser(after.unwrap()@)],
{
    let mut r: Vec<RowEvent> = Vec::new();
    match (before, after) {
        (Some(b), Some(a)) => {
            r.push(RowEvent::UpdateUser(b, a));
        },
        (None, Some(a)) => {
            r.push(RowEvent::InsertUser(a));
        },
        _ => {},
    }
    assert(events_view(r@) =~= r@.map_values(|e: RowEvent| e@));
    r
}

/// The reducer executor: the tables, and the last timestamp it assigned.
pub struct Server {
    db: Database,
    clock: u64,
}

impl Server {
    pub closed spec fn wf(&self) -> bool {
        &&& self.db.wf()
        &&& forall|i: int| 0 <= i < self.db@.messages.len() ==> #[trigger] self.db@.messages[i].sent <= self.clock
    }

    /// The tables.
    pub closed spec fn tables(&self) -> DatabaseView {
        self.db@
    }

    /// The last timestamp assigned.
    pub closed spec fn last_timestamp(&self) -> u64 {
        self.clock
    }

    pub fn new() -> (r: Server)
        ensures
            r.wf(),
            r.tables().users == Map::<Seq<u8>, UserView>::empty(),
            r.tables().messages == Seq::<MessageView>::empty(),
            r.last_timestamp() == 0,
    {
        Server { db: Database::new(), clock: 0 }
    }

    /// The tables, for reading.
    pub fn database(&self) -> (r: &Database)
        requires
            self.wf(),
        ensures
            r.wf(),
            r@ == self.tables(),
    {
        &self.db
    }

    /// Messages are stored in strictly increasing timestamp order, and none is
    /// later than the last timestamp assigned.
    pub proof fn lemma_messages_ordered(&self)
        requires
            self.wf(),
        ensures
            strictly_increasing(self.tables().messages),
            forall|i: int| 0 <= i < self.tables().messages.len() ==> #[trigger] self.tables().messages[i].sent
                <= self.last_timestamp(),
    {
        self.db.lemma_wf();
    }

    /// Runs one reducer as one transaction. The invocation gets a timestamp
    /// later than every one assigned before; a failing reducer leaves the
    /// tables as they were and commits no row change. There is no timestamp
    /// left to assign once the last one is `u64::MAX`: then nothing runs.
    pub fn invoke(&mut self, caller: Identity, call: ReducerCall, now: Timestamp) -> (r: Option<Commit>)
        requires
            old(self).wf(),
        ensures
            final(self).wf(),
            r is None <==> old(self).last_timestamp() == u64::MAX,
            r is None ==> final(self).tables() == old(self).tables() && final(self).last_timestamp() == old(self).last_timestamp(),
            r is Some ==> ({
                let c = r.unwrap();
                let ts = next_timestamp(old(self).last_timestamp(), now.millis);
                &&& c.event.timestamp.millis == ts
                &&& final(self).last_timestamp() == ts
                &&& c.event.caller@ == caller@
                &&& c.event.call@ == call@
                &&& (final(self).tables(), status_view(c.event.status)) == reduce(old(self).tables(), caller@, ts as u64, call@)
                &&& events_view(c.deltas@) == deltas_spec(old(self).tables(), caller@, ts as u64, call@)
            }),
    {
        if self.clock == u64::MAX {
            return None;
        }
        let ts: u64 = if now.millis > self.clock { now.millis } else { self.clock + 1 };
        proof {
            self.db.lemma_wf();
            assert(all_before(self.db@.messages, ts));
        }
        self.clock = ts;
        let ctx = ReducerContext { sender: caller, timestamp: Timestamp { millis: ts } };
        let kept = call.duplicate();
        let before = self.db.users().filter_by_identity(&caller);
        let ghost d0 = self.db@;
        let result: Result<(), String> = match call {
            ReducerCall::SetName(name) => set_name(&mut self.db, ctx, name),
            ReducerCall::SendMessage(text) => send_message(&mut self.db, ctx, text),
            ReducerCall::Connect => {
                identity_connected(&mut self.db, ctx);
                Ok(())
            },
            ReducerCall::Disconnect => {
                identity_disconnected(&mut self.db, ctx);
                Ok(())
            },
        };
        let deltas: Vec<RowEvent> = match result {
            Err(_) => Vec::new(),
            Ok(()) => {
                match kept {
                    ReducerCall::SendMessage(_) => {
                        let msgs = self.db.messages();
                        assert(self.db@.messages.len() > 0);
                        assert(msgs@.map_values(|m: Message| m@).len() == msgs@.len());
                        let last = msgs[msgs.len() - 1].duplicate();
                        let mut v: Vec<RowEvent> = Vec::new();
                        v.push(RowEvent::InsertMessage(last));
                        v
                    },
                    _ => {
                        let after = self.db.users().filter_by_identity(&caller);
                        user_deltas(before, after)
                    },
                }
            },
        };
        let status = match result {
            Ok(()) => Status::Committed,
            Err(e) => Status::Failed(e),
        };
        proof {
            self.db.lemma_wf();
            assert(events_view(deltas@) =~= deltas_spec(d0, caller@, ts, kept@));
        }
        Some(Commit { event: ReducerEvent { caller, call: kept, status, timestamp: Timestamp { millis: ts } }, deltas })
    }
}

/// A message committed by `send_message` is stamped later than every message
/// committed before the invocation began, given that none of those is later
/// than the last timestamp assigned.
pub proof fn lemma_send_message_monotonic(d: DatabaseView, last: u64, now: u64, sender: Seq<u8>, text: Seq<char>)
    requires
        last < u64::MAX,
        text.len() > 0,
        forall|i: int| 0 <= i < d.messages.len() ==> #[trigger] d.messages[i].sent <= last,
    ensures
        ({
            let ts = next_timestamp(last, now);
            let (after, err) = reduce(d, sender, ts as u64, CallView::SendMessage(text));
            &&& err is None
            &&& after.messages.len() == d.messages.len() + 1
            &&& after.messages.last().sent == ts
            &&& ts > last
            &&& forall|i: int| 0 <= i < d.messages.len() ==> #[trigger] d.messages[i].sent < after.messages.last().sent
        }),
{
}

/// `set_name` with an empty name fails with the empty-name reason, leaves the
/// tables unchanged and commits no row change.
pub proof fn lemma_empty_name_rejected(d: DatabaseView, sender: Seq<u8>, ts: u64)
    ensures
        reduce(d, sender, ts, CallView::SetName(Seq::empty())) == (d, Some(reason_empty_name())),
        deltas_spec(d, sender, ts, CallView::SetName(Seq::empty())) == Seq::<RowEventView>::empty(),
{
}

/// For an identity without a `User` row, connecting and then disconnecting
/// leaves exactly one row for it, offline and without a name.
pub proof fn lemma_connect_then_disconnect(d: DatabaseView, id: Seq<u8>, ts1: u64, ts2: u64)
    requires
        !d.users.contains_key(id),
    ensures
        ({
            let d1 = reduce(d, id, ts1, CallView::Connect).0;
            let d2 = reduce(d1, id, ts2, CallView::Disconnect).0;
            &&& d2.users.contains_key(id)
            &&& d2.users[id] == UserView { identity: id, name: None, online: false }
            &&& d2.users.dom() == d.users.dom().insert(id)
            &&& d2.messages == d.messages
        }),
{
    let d1 = reduce(d, id, ts1, CallView::Connect).0;
    let d2 = reduce(d1, id, ts2, CallView::Disconnect).0;
    assert(d2.users.dom() =~= d.users.dom().insert(id));
}

} // verus!
