use vstd::prelude::*;
use crate::identity::{Identity, Timestamp};

verus! {

/// A row of the `User` table, keyed by `identity`.
#[derive(Clone, Debug, PartialEq, Eq)]
pub struct User {
    pub identity: Identity,
    pub name: Option<String>,
    pub online: bool,
}

/// The mathematical value of a `User` row.
pub struct UserView {
    pub identity: Seq<u8>,
    pub name: Option<Seq<char>>,
    pub online: bool,
}

/// The mathematical value of an optional string.
pub open spec fn opt_view(n: Option<String>) -> Option<Seq<char>> {
    match n {
        Some(s) => Some(s@),
        None => None,
    }
}

impl View for User {
    type V = UserView;

    open spec fn view(&self) -> UserView {
        UserView { identity: self.identity@, name: opt_view(self.name), online: self.online }
    }
}

/// A copy of an optional string.
pub fn clone_name(n: &Option<String>) -> (r: Option<String>)
    ensures
        opt_view(r) == opt_view(*n),
{
    match n {
        Some(s) => Some(s.clone()),
        None => None,
    }
}

impl User {
    /// A copy of this row.
    pub fn duplicate(&self) -> (r: User)
        ensures
            r@ == self@,
    {
        User { identity: self.identity, name: clone_name(&self.name), online: self.online }
    }
}

/// A row of the `Message` table. It has no primary key.
#[derive(Clone, Debug, PartialEq, Eq)]
pub struct Message {
    pub sender: Identity,
    pub sent: Timestamp,
    pub text: String,
}

/// The mathematical value of a `Message` row.
pub struct MessageView {
    pub sender: Seq<u8>,
    pub sent: u64,
    pub text: Seq<char>,
}

impl View for Message {
    type V = MessageView;

    open spec fn view(&self) -> MessageView {
        MessageView { sender: self.sender@, sent: self.sent.millis, text: self.text@ }
    }
}

impl Message {
    /// A copy of this row.
    pub fn duplicate(&self) -> (r: Message)
        ensures
            r@ == self@,
    {
        Message { sender: self.sender, sent: self.sent, text: self.text.clone() }
    }
}

/// Why a table operation was refused.
#[derive(Clone, Copy, Debug, PartialEq, Eq)]
pub enum TableError {
    /// An insert whose key is already present.
    ConstraintViolation,
    /// An update or delete whose key is absent.
    NotFound,
}

/// The `User` table: rows with pairwise distinct identities. Its model maps
/// each identity to the row stored under it.
pub struct UserTable {
    rows: Vec<User>,
    model: Ghost<Map<Seq<u8>, UserView>>,
}

impl View for UserTable {
    type V = Map<Seq<u8>, UserView>;

    closed spec fn view(&self) -> Map<Seq<u8>, UserView> {
        self.model@
    }
}

/// Every row of the map is stored under its own identity.
pub open spec fn keyed_by_identity(m: Map<Seq<u8>, UserView>) -> bool {
    forall|k: Seq<u8>| #[trigger] m.contains_key(k) ==> m[k].identity == k
}

/// `rows` lists exactly the rows of `m`.
pub open spec fn lists_rows(rows: Seq<User>, m: Map<Seq<u8>, UserView>) -> bool {
    &&& forall|i: int|
        0 <= i < rows.len() ==> m.contains_key(#[trigger] rows[i]@.identity) && m[rows[i]@.identity]
            == rows[i]@
    &&& forall|k: Seq<u8>|
        #[trigger] m.contains_key(k) ==> exists|i: int| 0 <= i < rows.len() && rows[i]@.identity == k
}

impl UserTable {
    pub closed spec fn wf(&self) -> bool {
        &&& lists_rows(self.rows@, self.model@)
        &&& forall|i: int, j: int|
            0 <= i < self.rows@.len() && 0 <= j < self.rows@.len() && i != j
                ==> #[trigger] self.rows@[i]@.identity != #[trigger] self.rows@[j]@.identity
    }

    /// A well-formed table stores each row under its own identity.
    pub proof fn lemma_keyed(&self)
        requires
            self.wf(),
        ensures
            keyed_by_identity(self@),
    {
        assert forall|k: Seq<u8>| #[trigger] self@.contains_key(k) implies self@[k].identity == k by {
            let i = choose|i: int| 0 <= i < self.rows@.len() && self.rows@[i]@.identity == k;
            assert(self.rows@[i]@.identity == k);
        }
    }

    pub fn new() -> (r: UserTable)
        ensures
            r.wf(),
            r@ == Map::<Seq<u8>, UserView>::empty(),
    {
        UserTable { rows: Vec::new(), model: Ghost(Map::empty()) }
    }

    fn index_of(&self, id: &Identity) -> (r: Option<usize>)
        requires
            self.wf(),
        ensures
            match r {
                Some(i) => i < self.rows@.len() && self.rows@[i as int]@.identity == id@,
                None => !self@.contains_key(id@),
            },
    {
        let mut i: usize = 0;
        while i < self.rows.len()
            invariant
                i <= self.rows@.len(),
                forall|k: int| 0 <= k < i ==> self.rows@[k]@.identity != id@,
            decreases self.rows@.len() - i,
        {
            if self.rows[i].identity.same_as(id) {
                return Some(i);
            }
            i = i + 1;
        }
        None
    }

    /// The row stored under `id`, if any.
    pub fn filter_by_identity(&self, id: &Identity) -> (r: Option<User>)
        requires
            self.wf(),
        ensures
            r.is_some() == self@.contains_key(id@),
            r.is_some() ==> r.unwrap()@ == self@[id@],
    {
        match self.index_of(id) {
            Some(i) => Some(self.rows[i].duplicate()),
            None => None,
        }
    }

    /// Adds a row whose identity is not yet present.
    pub fn insert(&mut self, row: User) -> (r: Result<(), TableError>)
        requires
            old(self).wf(),
        ensures
            final(self).wf(),
            r is Err <==> old(self)@.contains_key(row@.identity),
            r is Err ==> r == Err::<(), TableError>(TableError::ConstraintViolation) && final(self)@
                == old(self)@,
            r is Ok ==> final(self)@ == old(self)@.insert(row@.identity, row@),
    {
        match self.index_of(&row.identity) {
            Some(_) => {
                proof {
                    self.lemma_keyed();
                }
                Err(TableError::ConstraintViolation)
            },
            None => {
                let ghost old_rows = self.rows@;
                let ghost key = row@.identity;
                self.model = Ghost(self.model@.insert(row@.identity, row@));
                self.rows.push(row);
                proof {
                    let n = old_rows.len() as int;
                    assert(self.rows@[n]@.identity == key);
                    assert forall|k: Seq<u8>| #[trigger] self.model@.contains_key(k) implies exists|i: int|
                        0 <= i < self.rows@.len() && self.rows@[i]@.identity == k by {
                        if k == key {
                            assert(self.rows@[n]@.identity == k);
                        } else {
                            let j = choose|j: int| 0 <= j < old_rows.len() && old_rows[j]@.identity == k;
                            assert(self.rows@[j] == old_rows[j]);
                        }
                    }
                    assert forall|i: int| 0 <= i < self.rows@.len() implies self.model@.contains_key(
                        #[trigger] self.rows@[i]@.identity) && self.model@[self.rows@[i]@.identity]
                        == self.rows@[i]@ by {
                        if i < n {
                            assert(self.rows@[i] == old_rows[i]);
                            assert(old_rows[i]@.identity != key);
                        }
                    }
                }
                Ok(())
            },
        }
    }

    /// Replaces the row stored under `row.identity`.
    pub fn update_by_identity(&mut self, row: User) -> (r: Result<(), TableError>)
        requires
            old(self).wf(),
        ensures
            final(self).wf(),
            r is Err <==> !old(self)@.contains_key(row@.identity),
            r is Err ==> r == Err::<(), TableError>(TableError::NotFound) && final(self)@ == old(self)@,
            r is Ok ==> final(self)@ == old(self)@.insert(row@.identity, row@),
    {
        match self.index_of(&row.identity) {
            None => Err(TableError::NotFound),
            Some(i) => {
                let ghost old_rows = self.rows@;
                let ghost key = row@.identity;
                self.model = Ghost(self.model@.insert(row@.identity, row@));
                self.rows.set(i, row);
                proof {
                    assert forall|k: Seq<u8>| #[trigger] self.model@.contains_key(k) implies exists|j: int|
                        0 <= j < self.rows@.len() && self.rows@[j]@.identity == k by {
                        if k == key {
                            assert(self.rows@[i as int]@.identity == k);
                        } else {
                            let j = choose|j: int| 0 <= j < old_rows.len() && old_rows[j]@.identity == k;
                            assert(self.rows@[j] == old_rows[j]);
                        }
                    }
                    assert forall|j: int| 0 <= j < self.rows@.len() implies self.model@.contains_key(
                        #[trigger] self.rows@[j]@.identity) && self.model@[self.rows@[j]@.identity]
                        == self.rows@[j]@ by {
                        if j != i {
                            assert(self.rows@[j] == old_rows[j]);
                            assert(old_rows[j]@.identity != key);
                        }
                    }
                    assert forall|a: int, b: int|
                        0 <= a < self.rows@.len() && 0 <= b < self.rows@.len() && a != b
                            implies #[trigger] self.rows@[a]@.identity != #[trigger] self.rows@[b]@.identity by {
                        if a != i {
                            assert(self.rows@[a] == old_rows[a]);
                        }
                        if b != i {
                            assert(self.rows@[b] == old_rows[b]);
                        }
                    }
                }
                Ok(())
            },
        }
    }

    /// Removes the row stored under `id`.
    pub fn delete_by_identity(&mut self, id: &Identity) -> (r: Result<(), TableError>)
        requires
            old(self).wf(),
        ensures
            final(self).wf(),
            r is Err <==> !old(self)@.contains_key(id@),
            r is Err ==> r == Err::<(), TableError>(TableError::NotFound) && final(self)@ == old(self)@,
            r is Ok ==> final(self)@ == old(self)@.remove(id@),
    {
        match self.index_of(id) {
            None => Err(TableError::NotFound),
            Some(i) => {
                let ghost old_rows = self.rows@;
                let ghost key = id@;
                self.model = Ghost(self.model@.remove(id@));
                self.rows.remove(i);
                proof {
                    assert forall|k: Seq<u8>| #[trigger] self.model@.contains_key(k) implies exists|j: int|
                        0 <= j < self.rows@.len() && self.rows@[j]@.identity == k by {
                        let j = choose|j: int| 0 <= j < old_rows.len() && old_rows[j]@.identity == k;
                        assert(j != i);
                        if j < i {
                            assert(self.rows@[j] == old_rows[j]);
                        } else {
                            assert(self.rows@[j - 1] == old_rows[j]);
                        }
                    }
                    assert forall|j: int| 0 <= j < self.rows@.len() implies self.model@.contains_key(
                        #[trigger] self.rows@[j]@.identity) && self.model@[self.rows@[j]@.identity]
                        == self.rows@[j]@ by {
                        let o = if j < i { j } else { j + 1 };
                        assert(self.rows@[j] == old_rows[o]);
                        assert(old_rows[o]@.identity != key);
                    }
                    assert forall|a: int, b: int|
                        0 <= a < self.rows@.len() && 0 <= b < self.rows@.len() && a != b
                            implies #[trigger] self.rows@[a]@.identity != #[trigger] self.rows@[b]@.identity by {
                        let oa = if a < i { a } else { a + 1 };
                        let ob = if b < i { b } else { b + 1 };
                        assert(self.rows@[a] == old_rows[oa]);
                        assert(self.rows@[b] == old_rows[ob]);
                    }
                }
                Ok(())
            },
        }
    }

    /// All rows, in storage order.
    pub fn scan(&self) -> (r: &Vec<User>)
        requires
            self.wf(),
        ensures
            lists_rows(r@, self@),
    {
        &self.rows
    }
}

} // verus!

verus! {

/// One row change, as the server commits it and a client receives it.
#[derive(Clone, Debug, PartialEq, Eq)]
pub enum RowEvent {
    InsertUser(User),
    UpdateUser(User, User),
    DeleteUser(User),
    InsertMessage(Message),
    DeleteMessage(Message),
}

/// The mathematical value of a `RowEvent`.
pub enum RowEventView {
    InsertUser(UserView),
    UpdateUser(UserView, UserView),
    DeleteUser(UserView),
    InsertMessage(MessageView),
    DeleteMessage(MessageView),
}

impl View for RowEvent {
    type V = RowEventView;

    open spec fn view(&self) -> RowEventView {
        match self {
            RowEvent::InsertUser(u) => RowEventView::InsertUser(u@),
            RowEvent::UpdateUser(o, n) => RowEventView::UpdateUser(o@, n@),
            RowEvent::DeleteUser(u) => RowEventView::DeleteUser(u@),
            RowEvent::InsertMessage(m) => RowEventView::InsertMessage(m@),
            RowEvent::DeleteMessage(m) => RowEventView::DeleteMessage(m@),
        }
    }
}

/// The views of a sequence of row events.
pub open spec fn events_view(s: Seq<RowEvent>) -> Seq<RowEventView> {
    s.map_values(|e: RowEvent| e@)
}

} // verus!
