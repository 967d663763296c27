use vstd::prelude::*;
use vstd::string::*;
use crate::cache::LocalCache;
use crate::executor::{CallView, ReducerCall, ReducerEvent, Status, status_view};
use crate::identity::{SHORT_ID_LEN, hex_lower, identity_leading_hex};
use crate::tables::{Message, MessageView, User, UserTable, UserView, clone_name, opt_view};

verus! {

broadcast use {vstd::seq_lib::to_multiset_build, vstd::seq_lib::to_multiset_insert};

/// How a user is shown: its name, or else the leading bytes of its identity
/// in hexadecimal.
pub open spec fn display_name(u: UserView) -> Seq<char> {
    match u.name {
        Some(n) => n,
        None => hex_lower(u.identity.subrange(0, SHORT_ID_LEN as int)),
    }
}

/// How the sender of a message is shown.
pub open spec fn sender_label(users: Map<Seq<u8>, UserView>, m: MessageView) -> Seq<char> {
    if users.contains_key(m.sender) {
        display_name(users[m.sender])
    } else {
        "unknown"@
    }
}

/// A notification about a user's name or presence.
#[derive(Clone, Debug, PartialEq, Eq)]
pub enum Notice {
    Connected(String),
    Disconnected(String),
    Renamed(String, String),
}

/// The mathematical value of a `Notice`.
pub enum NoticeView {
    Connected(Seq<char>),
    Disconnected(Seq<char>),
    Renamed(Seq<char>, Seq<char>),
}

impl View for Notice {
    type V = NoticeView;

    open spec fn view(&self) -> NoticeView {
        match self {
            Notice::Connected(s) => NoticeView::Connected(s@),
            Notice::Disconnected(s) => NoticeView::Disconnected(s@),
            Notice::Renamed(a, b) => NoticeView::Renamed(a@, b@),
        }
    }
}

/// A chat line: who sent it, and what.
#[derive(Clone, Debug, PartialEq, Eq)]
pub struct ChatLine {
    pub sender: String,
    pub text: String,
}

/// The mathematical value of a `ChatLine`.
pub struct ChatLineView {
    pub sender: Seq<char>,
    pub text: Seq<char>,
}

impl View for ChatLine {
    type V = ChatLineView;

    open spec fn view(&self) -> ChatLineView {
        ChatLineView { sender: self.sender@, text: self.text@ }
    }
}

/// The line shown for message `m`, given the cached users.
pub open spec fn line_spec(users: Map<Seq<u8>, UserView>, m: MessageView) -> ChatLineView {
    ChatLineView { sender: sender_label(users, m), text: m.text }
}

/// The notices for a change of a user row.
pub open spec fn update_notices(old: UserView, new: UserView) -> Seq<NoticeView> {
    (if old.name != new.name {
        seq![NoticeView::Renamed(display_name(old), display_name(new))]
    } else {
        Seq::empty()
    }) + (if old.online && !new.online {
        seq![NoticeView::Disconnected(display_name(new))]
    } else {
        Seq::empty()
    }) + (if !old.online && new.online {
        seq![NoticeView::Connected(display_name(new))]
    } else {
        Seq::empty()
    })
}

/// Message timestamps never decrease along `s`.
pub open spec fn sorted_by_sent(s: Seq<MessageView>) -> bool {
    forall|i: int, j: int| 0 <= i < j < s.len() ==> #[trigger] s[i].sent <= #[trigger] s[j].sent
}

pub open spec fn message_views(s: Seq<Message>) -> Seq<MessageView> {
    s.map_values(|m: Message| m@)
}

/// The reducer call that an input line asks for: `/name <name>` sets the
/// name, anything else is sent as a message.
pub open spec fn input_spec(line: Seq<char>) -> CallView {
    if line.len() >= 6 && line.subrange(0, 6) == "/name "@ {
        CallView::SetName(line.subrange(6, line.len() as int))
    } else {
        CallView::SendMessage(line)
    }
}

/// The label under which a user is shown.
pub fn user_name_or_identity(user: &User) -> (r: String)
    ensures
        r@ == display_name(user@),
{
    match &user.name {
        Some(n) => n.clone(),
        None => identity_leading_hex(&user.identity),
    }
}

fn same_name(a: &Option<String>, b: &Option<String>) -> (r: bool)
    ensures
        r == (opt_view(*a) == opt_view(*b)),
{
    match (a, b) {
        (Some(x), Some(y)) => *x == *y,
        (None, None) => true,
        _ => false,
    }
}

/// A user row arrived: an online user is announced.
pub fn on_user_inserted(user: &User, _reducer_event: Option<&ReducerEvent>) -> (r: Option<Notice>)
    ensures
        user.online ==> r is Some && r.unwrap()@ == NoticeView::Connected(display_name(user@)),
        !user.online ==> r is None,
{
    if user.online {
        Some(Notice::Connected(user_name_or_identity(user)))
    } else {
        None
    }
}

/// A user row changed: announce a rename, then a disconnect or a connect.
pub fn on_user_updated(old: &User, new: &User, _reducer_event: Option<&ReducerEvent>) -> (r: Vec<Notice>)
    ensures
        r@.map_values(|n: Notice| n@) == update_notices(old@, new@),
{
    let mut r: Vec<Notice> = Vec::new();
    if !same_name(&old.name, &new.name) {
        r.push(Notice::Renamed(user_name_or_identity(old), user_name_or_identity(new)));
    }
    if old.online && !new.online {
        r.push(Notice::Disconnected(user_name_or_identity(new)));
    }
    if !old.online && new.online {
        r.push(Notice::Connected(user_name_or_identity(new)));
    }
    assert(r@.map_values(|n: Notice| n@) =~= update_notices(old@, new@));
    r
}

/// The line for a message, naming its sender from the cached users.
pub fn print_message(users: &UserTable, message: &Message) -> (r: ChatLine)
    requires
        users.wf(),
    ensures
        r@ == line_spec(users@, message@),
{
    let sender = match users.filter_by_identity(&message.sender) {
        Some(u) => user_name_or_identity(&u),
        None => String::from_str("unknown"),
    };
    ChatLine { sender, text: message.text.clone() }
}

/// A message arrived: it is shown when a reducer caused it, and not when it
/// is part of a subscription's initial rows.
pub fn on_message_inserted(cache: &LocalCache, message: &Message, reducer_event: Option<&ReducerEvent>) -> (r: Option<ChatLine>)
    requires
        cache.wf(),
    ensures
        reducer_event is Some ==> r is Some && r.unwrap()@ == line_spec(cache@.users, message@),
        reducer_event is None ==> r is None,
{
    match reducer_event {
        Some(_) => Some(print_message(cache.users(), message)),
        None => None,
    }
}

/// The messages in order of their timestamps; equal timestamps keep their order.
pub fn sort_by_sent(msgs: &Vec<Message>) -> (r: Vec<Message>)
    ensures
        message_views(r@).to_multiset() == message_views(msgs@).to_multiset(),
        sorted_by_sent(message_views(r@)),
{
    let mut r: Vec<Message> = Vec::new();
    let mut i: usize = 0;
    assert(message_views(r@) =~= message_views(msgs@.subrange(0, 0)));
    while i < msgs.len()
        invariant
            i <= msgs@.len(),
            message_views(r@).to_multiset() == message_views(msgs@.subrange(0, i as int)).to_multiset(),
            sorted_by_sent(message_views(r@)),
        decreases msgs@.len() - i,
    {
        let m = &msgs[i];
        let mut p: usize = 0;
        while p < r.len() && r[p].sent.millis <= m.sent.millis
            invariant
                p <= r@.len(),
                forall|k: int| 0 <= k < p ==> #[trigger] r@[k].sent.millis <= m.sent.millis,
            decreases r@.len() - p,
        {
            p = p + 1;
        }
        let ghost before = message_views(r@);
        r.insert(p, m.duplicate());
        proof {
            assert(message_views(r@) =~= before.insert(p as int, m@));
            assert(message_views(msgs@.subrange(0, i + 1)) =~= message_views(msgs@.subrange(0, i as int)).push(m@));
            let s = message_views(r@);
            assert forall|a: int, b: int| 0 <= a < b < s.len() implies #[trigger] s[a].sent <= #[trigger] s[b].sent by {
                if a < p && b > p {
                    assert(s[a] == before[a]);
                    assert(s[b] == before[b - 1]);
                } else if a < p && b == p {
                    assert(s[a] == before[a]);
                    assert(r@[a].sent.millis <= m.sent.millis);
                } else if a == p {
                    assert(s[b] == before[b - 1]);
                    if p < before.len() {
                        assert(before[p as int].sent > m.sent.millis);
                        assert(before[p as int].sent <= before[b - 1].sent);
                    }
                } else if a < p {
                    assert(s[a] == before[a]);
                    assert(s[b] == before[b]);
                } else {
                    assert(s[a] == before[a - 1]);
                    assert(s[b] == before[b - 1]);
                }
            }
        }
        i = i + 1;
    }
    assert(msgs@.subrange(0, msgs@.len() as int) =~= msgs@);
    r
}

/// The initial rows are in: every cached message, in timestamp order.
pub fn on_sub_applied(cache: &LocalCache) -> (r: Vec<ChatLine>)
    requires
        cache.wf(),
    ensures
        exists|s: Seq<MessageView>| {
            &&& s.to_multiset() == cache@.messages.to_multiset()
            &&& sorted_by_sent(s)
            &&& s.len() == r@.len()
            &&& forall|i: int| 0 <= i < s.len() ==> #[trigger] r@[i]@ == line_spec(cache@.users, s[i])
        },
{
    let msgs = sort_by_sent(cache.messages());
    let users = cache.users();
    let mut r: Vec<ChatLine> = Vec::new();
    let mut i: usize = 0;
    while i < msgs.len()
        invariant
            i <= msgs@.len(),
            users.wf(),
            users@ == cache@.users,
            r@.len() == i,
            forall|k: int| 0 <= k < i ==> #[trigger] r@[k]@ == line_spec(cache@.users, msgs@[k]@),
        decreases msgs@.len() - i,
    {
        r.push(print_message(users, &msgs[i]));
        i = i + 1;
    }
    let ghost s = message_views(msgs@);
    assert(forall|k: int| 0 <= k < s.len() ==> #[trigger] r@[k]@ == line_spec(cache@.users, s[k]));
    r
}

/// The failure reason of a `set_name` call, if it failed.
pub fn on_name_set(status: &Status) -> (r: Option<String>)
    ensures
        opt_view(r) == status_view(*status),
{
    match status {
        Status::Failed(e) => Some(e.clone()),
        Status::Committed => None,
    }
}

/// The failure reason of a `send_message` call, if it failed.
pub fn on_message_sent(status: &Status) -> (r: Option<String>)
    ensures
        opt_view(r) == status_view(*status),
{
    match status {
        Status::Failed(e) => Some(e.clone()),
        Status::Committed => None,
    }
}

/// The reducer call that an input line asks for.
pub fn parse_input(line: &str) -> (r: ReducerCall)
    ensures
        r@ == input_spec(line@),
{
    let prefix = "/name ";
    proof {
        reveal_strlit("/name ");
    }
    let n = line.unicode_len();
    if n >= 6 {
        let mut k: usize = 0;
        while k < 6
            invariant
                k <= 6,
                n == line@.len(),
                n >= 6,
                prefix@ == "/name "@,
                prefix@.len() == 6,
                forall|j: int| 0 <= j < k ==> line@[j] == prefix@[j],
            decreases 6 - k,
        {
            if line.get_char(k) != prefix.get_char(k) {
                assert(line@.subrange(0, 6)[k as int] != prefix@[k as int]);
                return ReducerCall::SendMessage(line.to_owned());
            }
            k = k + 1;
        }
        assert(line@.subrange(0, 6) =~= prefix@);
        ReducerCall::SetName(line.substring_char(6, n).to_owned())
    } else {
        ReducerCall::SendMessage(line.to_owned())
    }
}

} // verus!
