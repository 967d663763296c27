use vstd::prelude::*;
use vstd::string::*;
use crate::identity::{Identity, Timestamp};
use crate::tables::{Message, MessageView, User, UserTable, UserView, keyed_by_identity};

verus! {

/// What a reducer sees of its invocation: who called it, and the timestamp
/// that the executor assigned to it.
#[derive(Clone, Copy, Debug, PartialEq, Eq)]
pub struct ReducerContext {
    pub sender: Identity,
    pub timestamp: Timestamp,
}

/// The mathematical value of the server's tables.
pub struct DatabaseView {
    pub users: Map<Seq<u8>, UserView>,
    pub messages: Seq<MessageView>,
}

/// Message timestamps strictly increase along the table.
pub open spec fn strictly_increasing(m: Seq<MessageView>) -> bool {
    forall|i: int, j: int| 0 <= i < j < m.len() ==> #[trigger] m[i].sent < #[trigger] m[j].sent
}

/// Every message of `m` was sent before `t`.
pub open spec fn all_before(m: Seq<MessageView>, t: u64) -> bool {
    forall|i: int| 0 <= i < m.len() ==> #[trigger] m[i].sent < t
}

/// The server's authoritative tables.
pub struct Database {
    users: UserTable,
    messages: Vec<Message>,
}

impl View for Database {
    type V = DatabaseView;

    closed spec fn view(&self) -> DatabaseView {
        DatabaseView { users: self.users@, messages: self.messages@.map_values(|m: Message| m@) }
    }
}

pub open spec fn reason_empty_name() -> Seq<char> {
    "Names must not be empty"@
}

pub open spec fn reason_unknown_user() -> Seq<char> {
    "Cannot set name for unknown user"@
}

pub open spec fn reason_empty_message() -> Seq<char> {
    "Messages must not be empty"@
}

/// The `set_name` reducer: the tables after it and its failure reason, if any.
pub open spec fn set_name_spec(d: DatabaseView, sender: Seq<u8>, name: Seq<char>) -> (DatabaseView, Option<Seq<char>>) {
    if name.len() == 0 {
        (d, Some(reason_empty_name()))
    } else if !d.users.contains_key(sender) {
        (d, Some(reason_unknown_user()))
    } else {
        (DatabaseView {
            users: d.users.insert(sender, UserView { identity: sender, name: Some(name), online: d.users[sender].online }),
            messages: d.messages,
        }, None)
    }
}

/// The `send_message` reducer: the tables after it and its failure reason, if any.
pub open spec fn send_message_spec(d: DatabaseView, sender: Seq<u8>, sent: u64, text: Seq<char>) -> (DatabaseView, Option<Seq<char>>) {
    if text.len() == 0 {
        (d, Some(reason_empty_message()))
    } else {
        (DatabaseView {
            users: d.users,
            messages: d.messages.push(MessageView { sender, sent, text }),
        }, None)
    }
}

/// The connect lifecycle reducer: marks the caller online, creating its row if needed.
pub open spec fn connect_spec(d: DatabaseView, sender: Seq<u8>) -> DatabaseView {
    let name = if d.users.contains_key(sender) { d.users[sender].name } else { None };
    DatabaseView {
        users: d.users.insert(sender, UserView { identity: sender, name, online: true }),
        messages: d.messages,
    }
}

/// The disconnect lifecycle reducer: marks the caller offline if it has a row.
pub open spec fn disconnect_spec(d: DatabaseView, sender: Seq<u8>) -> DatabaseView {
    if d.users.contains_key(sender) {
        DatabaseView {
            users: d.users.insert(sender, UserView { identity: sender, name: d.users[sender].name, online: false }),
            messages: d.messages,
        }
    } else {
        d
    }
}

pub open spec fn err_view(r: Result<(), String>) -> Option<Seq<char>> {
    match r {
        Ok(_) => None,
        Err(e) => Some(e@),
    }
}

impl Database {
    pub closed spec fn wf(&self) -> bool {
        &&& self.users.wf()
        &&& strictly_increasing(self@.messages)
    }

    /// A well-formed database stores each user row under its own identity.
    pub proof fn lemma_wf(&self)
        requires
            self.wf(),
        ensures
            keyed_by_identity(self@.users),
            strictly_increasing(self@.messages),
    {
        self.users.lemma_keyed();
    }

    pub fn new() -> (r: Database)
        ensures
            r.wf(),
            r@.users == Map::<Seq<u8>, UserView>::empty(),
            r@.messages == Seq::<MessageView>::empty(),
    {
        let r = Database { users: UserTable::new(), messages: Vec::new() };
        assert(r@.messages =~= Seq::<MessageView>::empty());
        r
    }

    /// The `User` table.
    pub fn users(&self) -> (r: &UserTable)
        requires
            self.wf(),
        ensures
            r.wf(),
            r@ == self@.users,
    {
        &self.users
    }

    /// The `Message` table, in commit order.
    pub fn messages(&self) -> (r: &Vec<Message>)
        ensures
            r@.map_values(|m: Message| m@) == self@.messages,
    {
        &self.messages
    }
}

/// Accepts a non-empty name and hands it back.
pub fn validate_name(name: String) -> (r: Result<String, String>)
    ensures
        name@.len() == 0 ==> r is Err && r->Err_0@ == reason_empty_name(),
        name@.len() > 0 ==> r is Ok && r->Ok_0@ == name@,
{
    if name.as_str().is_empty() {
        Err(String::from_str("Names must not be empty"))
    } else {
        Ok(name)
    }
}

/// Accepts a non-empty message text and hands it back.
pub fn validate_message(text: String) -> (r: Result<String, String>)
    ensures
        text@.len() == 0 ==> r is Err && r->Err_0@ == reason_empty_message(),
        text@.len() > 0 ==> r is Ok && r->Ok_0@ == text@,
{
    if text.as_str().is_empty() {
        Err(String::from_str("Messages must not be empty"))
    } else {
        Ok(text)
    }
}

/// Sets the caller's name, keeping its online flag.
pub fn set_name(db: &mut Database, ctx: ReducerContext, name: String) -> (r: Result<(), String>)
    requires
        old(db).wf(),
    ensures
        final(db).wf(),
        (final(db)@, err_view(r)) == set_name_spec(old(db)@, ctx.sender@, name@),
{
    let name = match validate_name(name) {
        Ok(n) => n,
        Err(e) => {
            return Err(e);
        },
    };
    match db.users.filter_by_identity(&ctx.sender) {
        Some(user) => {
            let row = User { identity: ctx.sender, name: Some(name), online: user.online };
            let _ = db.users.update_by_identity(row);
            assert(db@.users == old(db)@.users.insert(ctx.sender@, row@));
            Ok(())
        },
        None => Err(String::from_str("Cannot set name for unknown user")),
    }
}

/// Appends a message from the caller, stamped with the invocation's timestamp.
pub fn send_message(db: &mut Database, ctx: ReducerContext, text: String) -> (r: Result<(), String>)
    requires
        old(db).wf(),
        all_before(old(db)@.messages, ctx.timestamp.millis),
    ensures
        final(db).wf(),
        (final(db)@, err_view(r)) == send_message_spec(old(db)@, ctx.sender@, ctx.timestamp.millis, text@),
{
    let text = match validate_message(text) {
        Ok(t) => t,
        Err(e) => {
            return Err(e);
        },
    };
    let msg = Message { sender: ctx.sender, text, sent: ctx.timestamp };
    db.messages.push(msg);
    assert(db@.messages =~= old(db)@.messages.push(msg@));
    Ok(())
}

/// The connect lifecycle reducer.
pub fn identity_connected(db: &mut Database, ctx: ReducerContext)
    requires
        old(db).wf(),
    ensures
        final(db).wf(),
        final(db)@ == connect_spec(old(db)@, ctx.sender@),
{
    match db.users.filter_by_identity(&ctx.sender) {
        Some(user) => {
            let row = User { identity: ctx.sender, name: user.name, online: true };
            let _ = db.users.update_by_identity(row);
        },
        None => {
            let row = User { name: None, identity: ctx.sender, online: true };
            let _ = db.users.insert(row);
        },
    }
    assert(db@ == connect_spec(old(db)@, ctx.sender@));
}

/// The disconnect lifecycle reducer. A caller without a row is left alone.
pub fn identity_disconnected(db: &mut Database, ctx: ReducerContext)
    requires
        old(db).wf(),
    ensures
        final(db).wf(),
        final(db)@ == disconnect_spec(old(db)@, ctx.sender@),
{
    match db.users.filter_by_identity(&ctx.sender) {
        Some(user) => {
            let row = User { identity: ctx.sender, name: user.name, online: false };
            let _ = db.users.update_by_identity(row);
        },
        None => {},
    }
    assert(db@ == disconnect_spec(old(db)@, ctx.sender@));
}

} // verus!
