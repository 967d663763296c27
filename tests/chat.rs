use quickchat::broadcast::{events_for, snapshot, Subscription};
use quickchat::cache::{CacheWarning, LocalCache};
use quickchat::client::{
    on_message_inserted, on_message_sent, on_name_set, on_sub_applied, on_user_inserted,
    on_user_updated, parse_input, print_message, sort_by_sent, user_name_or_identity, ChatLine,
    Notice,
};
use quickchat::executor::{Commit, ReducerCall, Server, Status};
use quickchat::identity::{identity_leading_hex, Identity, Timestamp};
use quickchat::reducers::{
    identity_connected, identity_disconnected, send_message, set_name, validate_message,
    validate_name, Database, ReducerContext,
};
use quickchat::tables::{Message, RowEvent, TableError, User, UserTable};

fn id(first: u8) -> Identity {
    let mut bytes = [0u8; 32];
    bytes[0] = first;
    bytes[1] = 0xab;
    bytes[7] = 0x0f;
    bytes[8] = 0xff;
    Identity::from_byte_array(bytes)
}

fn ctx(first: u8, millis: u64) -> ReducerContext {
    ReducerContext { sender: id(first), timestamp: Timestamp { millis } }
}

fn user(first: u8, name: Option<&str>, online: bool) -> User {
    User { identity: id(first), name: name.map(|s| s.to_string()), online }
}

fn msg(first: u8, millis: u64, text: &str) -> Message {
    Message { sender: id(first), sent: Timestamp { millis }, text: text.to_string() }
}

fn invoke(server: &mut Server, first: u8, call: ReducerCall, now: u64) -> Commit {
    server.invoke(id(first), call, Timestamp { millis: now }).unwrap()
}

#[test]
fn validate_name_rejects_empty() {
    assert_eq!(validate_name(String::new()), Err("Names must not be empty".to_string()));
    assert_eq!(validate_name("ann".to_string()), Ok("ann".to_string()));
}

#[test]
fn validate_message_rejects_empty() {
    assert_eq!(validate_message(String::new()), Err("Messages must not be empty".to_string()));
    assert_eq!(validate_message("hi".to_string()), Ok("hi".to_string()));
}

#[test]
fn set_name_empty_keeps_existing_name() {
    let mut db = Database::new();
    identity_connected(&mut db, ctx(1, 1));
    assert_eq!(set_name(&mut db, ctx(1, 2), "ann".to_string()), Ok(()));
    let r = set_name(&mut db, ctx(1, 3), String::new());
    assert_eq!(r, Err("Names must not be empty".to_string()));
    let u = db.users().filter_by_identity(&id(1)).unwrap();
    assert_eq!(u.name, Some("ann".to_string()));
    assert!(u.online);
}

#[test]
fn set_name_empty_through_executor_commits_nothing() {
    let mut server = Server::new();
    invoke(&mut server, 1, ReducerCall::Connect, 10);
    let c = invoke(&mut server, 1, ReducerCall::SetName(String::new()), 20);
    assert_eq!(c.event.status, Status::Failed("Names must not be empty".to_string()));
    assert!(c.deltas.is_empty());
    let u = server.database().users().filter_by_identity(&id(1)).unwrap();
    assert_eq!(u.name, None);
    assert_eq!(on_name_set(&c.event.status), Some("Names must not be empty".to_string()));
}

#[test]
fn set_name_unknown_user_fails() {
    let mut db = Database::new();
    let r = set_name(&mut db, ctx(2, 1), "bob".to_string());
    assert_eq!(r, Err("Cannot set name for unknown user".to_string()));
    assert!(db.users().filter_by_identity(&id(2)).is_none());
}

#[test]
fn set_name_keeps_online_flag() {
    let mut db = Database::new();
    identity_connected(&mut db, ctx(1, 1));
    identity_disconnected(&mut db, ctx(1, 2));
    assert_eq!(set_name(&mut db, ctx(1, 3), "ann".to_string()), Ok(()));
    let u = db.users().filter_by_identity(&id(1)).unwrap();
    assert_eq!(u, user(1, Some("ann"), false));
}

#[test]
fn connect_then_disconnect_leaves_one_offline_row() {
    let mut db = Database::new();
    identity_connected(&mut db, ctx(3, 1));
    identity_disconnected(&mut db, ctx(3, 2));
    assert_eq!(db.users().scan().len(), 1);
    assert_eq!(db.users().filter_by_identity(&id(3)).unwrap(), user(3, None, false));
}

#[test]
fn reconnect_keeps_name() {
    let mut db = Database::new();
    identity_connected(&mut db, ctx(1, 1));
    set_name(&mut db, ctx(1, 2), "ann".to_string()).unwrap();
    identity_disconnected(&mut db, ctx(1, 3));
    identity_connected(&mut db, ctx(1, 4));
    assert_eq!(db.users().filter_by_identity(&id(1)).unwrap(), user(1, Some("ann"), true));
    assert_eq!(db.users().scan().len(), 1);
}

#[test]
fn disconnect_of_unknown_user_changes_nothing() {
    let mut server = Server::new();
    let c = invoke(&mut server, 9, ReducerCall::Disconnect, 5);
    assert_eq!(c.event.status, Status::Committed);
    assert!(c.deltas.is_empty());
    assert!(server.database().users().scan().is_empty());
}

#[test]
fn send_message_records_sender_and_time() {
    let mut db = Database::new();
    assert_eq!(send_message(&mut db, ctx(4, 77), "hello".to_string()), Ok(()));
    assert_eq!(db.messages().clone(), vec![msg(4, 77, "hello")]);
    assert_eq!(
        send_message(&mut db, ctx(4, 78), String::new()),
        Err("Messages must not be empty".to_string())
    );
    assert_eq!(db.messages().len(), 1);
}

#[test]
fn two_messages_are_observed_in_order() {
    let mut server = Server::new();
    let sub = Subscription { users: true, messages: true };
    invoke(&mut server, 1, ReducerCall::Connect, 100);
    let a = invoke(&mut server, 1, ReducerCall::SendMessage("hi".to_string()), 100);
    let b = invoke(&mut server, 1, ReducerCall::SendMessage("there".to_string()), 100);
    let mut seen: Vec<Message> = Vec::new();
    for c in [&a, &b] {
        assert_eq!(c.event.status, Status::Committed);
        for e in events_for(&sub, &c.deltas) {
            match e {
                RowEvent::InsertMessage(m) => seen.push(m),
                other => panic!("unexpected event {:?}", other),
            }
        }
    }
    assert_eq!(seen.len(), 2);
    assert_eq!(seen[0].text, "hi");
    assert_eq!(seen[1].text, "there");
    assert!(seen[0].sent < seen[1].sent);
    assert_eq!(seen[0].sent, a.event.timestamp);
    assert_eq!(seen[1].sent, b.event.timestamp);
}

#[test]
fn timestamps_strictly_increase_when_clock_stalls() {
    let mut server = Server::new();
    let a = invoke(&mut server, 1, ReducerCall::SendMessage("a".to_string()), 50);
    let b = invoke(&mut server, 1, ReducerCall::SendMessage("b".to_string()), 40);
    let c = invoke(&mut server, 1, ReducerCall::SendMessage("c".to_string()), 90);
    assert_eq!(a.event.timestamp.millis, 50);
    assert_eq!(b.event.timestamp.millis, 51);
    assert_eq!(c.event.timestamp.millis, 90);
    let sent: Vec<u64> = server.database().messages().iter().map(|m| m.sent.millis).collect();
    assert_eq!(sent, vec![50, 51, 90]);
}

#[test]
fn executor_stops_when_timestamps_run_out() {
    let mut server = Server::new();
    let c = invoke(&mut server, 1, ReducerCall::Connect, u64::MAX);
    assert_eq!(c.event.timestamp.millis, u64::MAX);
    assert!(server.invoke(id(1), ReducerCall::Disconnect, Timestamp { millis: 3 }).is_none());
    assert!(server.database().users().filter_by_identity(&id(1)).unwrap().online);
}

#[test]
fn connect_commits_insert_then_update() {
    let mut server = Server::new();
    let c1 = invoke(&mut server, 1, ReducerCall::Connect, 1);
    assert_eq!(c1.deltas, vec![RowEvent::InsertUser(user(1, None, true))]);
    let c2 = invoke(&mut server, 1, ReducerCall::Disconnect, 2);
    assert_eq!(
        c2.deltas,
        vec![RowEvent::UpdateUser(user(1, None, true), user(1, None, false))]
    );
    assert_eq!(c2.event.caller, id(1));
    assert_eq!(c2.event.call, ReducerCall::Disconnect);
}

#[test]
fn snapshot_holds_every_row() {
    let mut server = Server::new();
    invoke(&mut server, 1, ReducerCall::Connect, 1);
    invoke(&mut server, 2, ReducerCall::Connect, 2);
    invoke(&mut server, 2, ReducerCall::SetName("bob".to_string()), 3);
    invoke(&mut server, 1, ReducerCall::SendMessage("x".to_string()), 4);
    let all = snapshot(server.database(), &Subscription { users: true, messages: true });
    assert_eq!(all.len(), 3);
    assert!(all.contains(&RowEvent::InsertUser(user(1, None, true))));
    assert!(all.contains(&RowEvent::InsertUser(user(2, Some("bob"), true))));
    assert_eq!(all[2], RowEvent::InsertMessage(msg(1, 4, "x")));
    let users_only = snapshot(server.database(), &Subscription { users: true, messages: false });
    assert_eq!(users_only.len(), 2);
    let none = snapshot(server.database(), &Subscription { users: false, messages: false });
    assert!(none.is_empty());
}

#[test]
fn subscription_from_queries() {
    let q = vec!["SELECT * FROM User;".to_string(), "SELECT * FROM Message;".to_string()];
    assert_eq!(Subscription::from_queries(&q), Ok(Subscription { users: true, messages: true }));
    let q = vec!["SELECT * FROM User;".to_string()];
    assert_eq!(Subscription::from_queries(&q), Ok(Subscription { users: true, messages: false }));
    let q = vec!["SELECT * FROM User;".to_string(), "SELECT name FROM User;".to_string()];
    assert_eq!(Subscription::from_queries(&q), Err(1));
    assert_eq!(Subscription::from_queries(&vec![]), Ok(Subscription { users: false, messages: false }));
}

#[test]
fn events_for_filters_by_table() {
    let deltas = vec![
        RowEvent::InsertUser(user(1, None, true)),
        RowEvent::InsertMessage(msg(1, 5, "m")),
    ];
    let only_messages = Subscription { users: false, messages: true };
    assert_eq!(events_for(&only_messages, &deltas), vec![RowEvent::InsertMessage(msg(1, 5, "m"))]);
}

#[test]
fn cache_insert_update_delete_leaves_no_entry() {
    let mut cache = LocalCache::new();
    assert_eq!(cache.apply(RowEvent::InsertUser(user(1, None, true))), None);
    assert_eq!(
        cache.apply(RowEvent::UpdateUser(user(1, None, true), user(1, Some("ann"), true))),
        None
    );
    assert_eq!(cache.users().filter_by_identity(&id(1)).unwrap().name, Some("ann".to_string()));
    assert_eq!(cache.apply(RowEvent::DeleteUser(user(1, Some("ann"), true))), None);
    assert!(cache.users().filter_by_identity(&id(1)).is_none());
}

#[test]
fn cache_anomalies_are_warnings() {
    let mut cache = LocalCache::new();
    assert_eq!(
        cache.apply(RowEvent::UpdateUser(user(1, None, true), user(1, None, false))),
        Some(CacheWarning::UpdateOfMissing)
    );
    assert_eq!(cache.users().filter_by_identity(&id(1)).unwrap(), user(1, None, false));
    assert_eq!(
        cache.apply(RowEvent::InsertUser(user(1, Some("x"), true))),
        Some(CacheWarning::DuplicateInsert)
    );
    assert_eq!(cache.users().filter_by_identity(&id(1)).unwrap(), user(1, Some("x"), true));
    assert_eq!(cache.apply(RowEvent::DeleteUser(user(2, None, true))), Some(CacheWarning::DeleteOfMissing));
    assert_eq!(
        cache.apply(RowEvent::DeleteMessage(msg(1, 1, "gone"))),
        Some(CacheWarning::DeleteOfMissing)
    );
}

#[test]
fn cache_deletes_one_matching_message() {
    let mut cache = LocalCache::new();
    cache.apply(RowEvent::InsertMessage(msg(1, 1, "a")));
    cache.apply(RowEvent::InsertMessage(msg(1, 2, "b")));
    cache.apply(RowEvent::InsertMessage(msg(1, 1, "a")));
    assert_eq!(cache.apply(RowEvent::DeleteMessage(msg(1, 1, "a"))), None);
    assert_eq!(cache.messages().clone(), vec![msg(1, 2, "b"), msg(1, 1, "a")]);
}

#[test]
fn table_rejects_duplicates_and_missing_keys() {
    let mut t = UserTable::new();
    assert_eq!(t.insert(user(1, None, true)), Ok(()));
    assert_eq!(t.insert(user(1, None, false)), Err(TableError::ConstraintViolation));
    assert_eq!(t.update_by_identity(user(2, None, true)), Err(TableError::NotFound));
    assert_eq!(t.delete_by_identity(&id(2)), Err(TableError::NotFound));
    assert_eq!(t.delete_by_identity(&id(1)), Ok(()));
    assert!(t.scan().is_empty());
}

#[test]
fn leading_hex_of_identity() {
    assert_eq!(identity_leading_hex(&id(0x01)), "01ab0000000000".to_string() + "0f");
    assert_eq!(user_name_or_identity(&user(0x01, None, true)), "01ab00000000000f");
    assert_eq!(user_name_or_identity(&user(0x01, Some("ann"), true)), "ann");
}

#[test]
fn user_notices() {
    assert_eq!(
        on_user_inserted(&user(1, Some("ann"), true), None),
        Some(Notice::Connected("ann".to_string()))
    );
    assert_eq!(on_user_inserted(&user(1, Some("ann"), false), None), None);
    assert_eq!(
        on_user_updated(&user(1, None, true), &user(1, Some("ann"), false), None),
        vec![
            Notice::Renamed("01ab00000000000f".to_string(), "ann".to_string()),
            Notice::Disconnected("ann".to_string()),
        ]
    );
    assert_eq!(
        on_user_updated(&user(1, Some("ann"), false), &user(1, Some("ann"), true), None),
        vec![Notice::Connected("ann".to_string())]
    );
    assert!(on_user_updated(&user(1, None, true), &user(1, None, true), None).is_empty());
}

#[test]
fn message_lines() {
    let mut cache = LocalCache::new();
    cache.apply(RowEvent::InsertUser(user(1, Some("ann"), true)));
    let line = print_message(cache.users(), &msg(1, 3, "hey"));
    assert_eq!(line, ChatLine { sender: "ann".to_string(), text: "hey".to_string() });
    let line = print_message(cache.users(), &msg(7, 3, "yo"));
    assert_eq!(line.sender, "unknown");
    let mut server = Server::new();
    let c = invoke(&mut server, 1, ReducerCall::SendMessage("hey".to_string()), 3);
    assert!(on_message_inserted(&cache, &msg(1, 3, "hey"), None).is_none());
    assert_eq!(on_message_inserted(&cache, &msg(1, 3, "hey"), Some(&c.event)), Some(line_for("ann", "hey")));
}

fn line_for(sender: &str, text: &str) -> ChatLine {
    ChatLine { sender: sender.to_string(), text: text.to_string() }
}

#[test]
fn backlog_is_sorted_by_time() {
    let mut cache = LocalCache::new();
    cache.apply(RowEvent::InsertUser(user(1, Some("ann"), true)));
    cache.apply(RowEvent::InsertMessage(msg(1, 30, "c")));
    cache.apply(RowEvent::InsertMessage(msg(1, 10, "a")));
    cache.apply(RowEvent::InsertMessage(msg(2, 20, "b")));
    cache.apply(RowEvent::InsertMessage(msg(1, 10, "a2")));
    assert_eq!(
        on_sub_applied(&cache),
        vec![line_for("ann", "a"), line_for("ann", "a2"), line_for("unknown", "b"), line_for("ann", "c")]
    );
    let sorted: Vec<u64> = sort_by_sent(cache.messages()).iter().map(|m| m.sent.millis).collect();
    assert_eq!(sorted, vec![10, 10, 20, 30]);
}

#[test]
fn failure_reasons() {
    assert_eq!(on_message_sent(&Status::Committed), None);
    assert_eq!(
        on_message_sent(&Status::Failed("Messages must not be empty".to_string())),
        Some("Messages must not be empty".to_string())
    );
    assert_eq!(on_name_set(&Status::Committed), None);
}

#[test]
fn input_lines() {
    assert_eq!(parse_input("/name ann"), ReducerCall::SetName("ann".to_string()));
    assert_eq!(parse_input("/name "), ReducerCall::SetName(String::new()));
    assert_eq!(parse_input("/nam"), ReducerCall::SendMessage("/nam".to_string()));
    assert_eq!(parse_input("hello /name x"), ReducerCall::SendMessage("hello /name x".to_string()));
    assert_eq!(parse_input("héllo"), ReducerCall::SendMessage("héllo".to_string()));
}
