use realm::{ErrorCode, Event, Message, MessageData, RealmChatServer, Reply, Room, User};

const ALICE: &str = "@alice:auth.example";
const BOB: &str = "@bob:auth.example";

fn fresh_chat() -> RealmChatServer {
    RealmChatServer::new("realm-1".to_string(), "chat.example".to_string(), 5051)
}

/// A server whose owner is already seated, so that room and message tests
/// start from a clean event log.
fn chat_with_members() -> RealmChatServer {
    let mut chat = fresh_chat();
    chat.users.push(User {
        id: 1,
        userid: ALICE.to_string(),
        name: ALICE.to_string(),
        owner: true,
        admin: true,
    });
    chat.users.push(User {
        id: 2,
        userid: BOB.to_string(),
        name: BOB.to_string(),
        owner: false,
        admin: false,
    });
    chat.next_user_id = 3;
    chat
}

fn draft(sender: &str, roomid: &str, data: MessageData) -> Message {
    Message {
        id: 0,
        timestamp: 0,
        user: User { id: 0, userid: sender.to_string(), name: String::new(), owner: false, admin: false },
        room: Room { id: 0, roomid: roomid.to_string(), admin_only_send: false, admin_only_view: false },
        data,
    }
}

fn room(roomid: &str, admin_only_send: bool, admin_only_view: bool) -> Room {
    Room { id: 0, roomid: roomid.to_string(), admin_only_send, admin_only_view }
}

#[test]
fn first_joiner_is_owner() {
    let mut chat = fresh_chat();

    let alice = chat.join_server(true, ALICE).unwrap();
    assert!(alice.owner);
    assert!(alice.admin);
    assert_eq!(alice.userid, ALICE);

    let bob = chat.join_server(true, BOB).unwrap();
    assert!(!bob.owner);
    assert!(!bob.admin);

    let events = chat.poll_events_since(0);
    assert_eq!(events.len(), 2);
    assert_eq!(events[0].0, 1);
    assert_eq!(events[1].0, 2);
    assert!(matches!(events[0].1, Event::UserJoined(_)));
    assert!(matches!(events[1].1, Event::UserJoined(_)));

    let dup = chat.join_server(true, ALICE);
    assert_eq!(dup.unwrap_err(), ErrorCode::AlreadyJoinedServer);
    let invalid = chat.join_server(false, "@carol:auth.example");
    assert_eq!(invalid.unwrap_err(), ErrorCode::Unauthorized);
}

#[test]
fn admin_only_send_room_gates_plain_members() {
    let mut chat = chat_with_members();
    chat.create_room(true, ALICE, room("ops", true, false)).unwrap();

    let refused = chat.send_message(true, &draft(BOB, "ops", MessageData::Text("hi".to_string())), 50);
    assert_eq!(refused.unwrap_err(), ErrorCode::Unauthorized);

    let sent = chat
        .send_message(true, &draft(ALICE, "ops", MessageData::Text("hi".to_string())), 50)
        .unwrap();
    assert_eq!(sent.id, 1);
    assert_eq!(sent.user.userid, ALICE);
}

#[test]
fn edit_ownership() {
    let mut chat = chat_with_members();
    chat.create_room(true, ALICE, room("general", false, false)).unwrap();

    let hello = chat
        .send_message(true, &draft(BOB, "general", MessageData::Text("hello".to_string())), 51)
        .unwrap();

    let edit = MessageData::Edit(realm::Edit { referencing_id: hello.id, text: "gotcha".to_string() });
    let alices = chat.send_message(true, &draft(ALICE, "general", edit), 52);
    assert_eq!(alices.unwrap_err(), ErrorCode::Unauthorized);

    let edit = MessageData::Edit(realm::Edit { referencing_id: hello.id, text: "gotcha".to_string() });
    let bobs = chat.send_message(true, &draft(BOB, "general", edit), 53).unwrap();
    assert!(matches!(bobs.data, MessageData::Edit(_)));
}

#[test]
fn redaction_needs_authorship_and_admin() {
    let mut chat = chat_with_members();
    chat.create_room(true, ALICE, room("general", false, false)).unwrap();

    let bobs = chat
        .send_message(true, &draft(BOB, "general", MessageData::Text("oops".to_string())), 60)
        .unwrap();
    let alices = chat
        .send_message(true, &draft(ALICE, "general", MessageData::Text("mine".to_string())), 61)
        .unwrap();

    // An admin may not redact someone else's message.
    let not_author = chat.send_message(
        true,
        &draft(ALICE, "general", MessageData::Redaction(realm::Redaction { referencing_id: bobs.id })),
        62,
    );
    assert_eq!(not_author.unwrap_err(), ErrorCode::Unauthorized);

    // The author may not redact without being an admin.
    let not_admin = chat.send_message(
        true,
        &draft(BOB, "general", MessageData::Redaction(realm::Redaction { referencing_id: bobs.id })),
        63,
    );
    assert_eq!(not_admin.unwrap_err(), ErrorCode::Unauthorized);

    // The admin author may.
    chat.send_message(
        true,
        &draft(ALICE, "general", MessageData::Redaction(realm::Redaction { referencing_id: alices.id })),
        64,
    )
    .unwrap();
}

#[test]
fn event_log_density() {
    let mut chat = chat_with_members();
    chat.create_room(true, ALICE, room("general", false, false)).unwrap();
    for text in ["one", "two", "three"] {
        chat.send_message(true, &draft(ALICE, "general", MessageData::Text(text.to_string())), 70)
            .unwrap();
    }
    chat.delete_room(true, ALICE, "general").unwrap();

    let events = chat.poll_events_since(0);
    assert_eq!(events.len(), 5);
    for (k, entry) in events.iter().enumerate() {
        assert_eq!(entry.0 as usize, k + 1);
    }
    assert!(matches!(events[0].1, Event::NewRoom(_)));
    assert!(matches!(events[1].1, Event::NewMessage(_)));
    assert!(matches!(events[2].1, Event::NewMessage(_)));
    assert!(matches!(events[3].1, Event::NewMessage(_)));
    assert!(matches!(events[4].1, Event::DeleteRoom(_)));

    // The tail past a watermark starts right after it.
    let tail = chat.poll_events_since(3);
    assert_eq!(tail.len(), 2);
    assert_eq!(tail[0].0, 4);
    assert_eq!(tail[1].0, 5);
    assert!(chat.poll_events_since(5).is_empty());
    assert!(chat.poll_events_since(9).is_empty());
}

#[test]
fn send_then_get_round_trips() {
    let mut chat = chat_with_members();
    chat.create_room(true, ALICE, room("general", false, false)).unwrap();

    let sent = chat
        .send_message(true, &draft(BOB, "general", MessageData::Text("ping".to_string())), 77)
        .unwrap();
    let got = chat.get_message(true, BOB, sent.id).unwrap();

    assert_eq!(got.id, sent.id);
    assert_eq!(got.timestamp, 77);
    assert_eq!(got.user.userid, BOB);
    assert_eq!(got.user.id, 2);
    assert_eq!(got.room.roomid, "general");
    assert!(matches!(&got.data, MessageData::Text(t) if t == "ping"));

    let missing = chat.get_message(true, BOB, 99);
    assert_eq!(missing.unwrap_err(), ErrorCode::MessageNotFound);
    let unauthorized = chat.get_message(false, BOB, sent.id);
    assert_eq!(unauthorized.unwrap_err(), ErrorCode::Unauthorized);
}

#[test]
fn hidden_rooms_stay_hidden_from_plain_members() {
    let mut chat = chat_with_members();
    chat.create_room(true, ALICE, room("general", false, false)).unwrap();
    chat.create_room(true, ALICE, room("staff", false, true)).unwrap();

    chat.send_message(true, &draft(ALICE, "staff", MessageData::Text("secret".to_string())), 80)
        .unwrap();
    chat.send_message(true, &draft(ALICE, "general", MessageData::Text("public".to_string())), 81)
        .unwrap();

    // Room listing and lookup.
    let bobs_rooms = chat.get_rooms(true, BOB).unwrap();
    assert_eq!(bobs_rooms.len(), 1);
    assert_eq!(bobs_rooms[0].roomid, "general");
    let alices_rooms = chat.get_rooms(true, ALICE).unwrap();
    assert_eq!(alices_rooms.len(), 2);
    assert_eq!(chat.get_room(true, BOB, "staff").unwrap_err(), ErrorCode::RoomNotFound);
    assert_eq!(chat.get_room(true, ALICE, "staff").unwrap().roomid, "staff");
    assert_eq!(chat.get_room(true, BOB, "nowhere").unwrap_err(), ErrorCode::RoomNotFound);

    // Message reads honour the room's view policy.
    assert_eq!(chat.get_message(true, BOB, 1).unwrap_err(), ErrorCode::MessageNotFound);
    assert!(chat.get_message(true, ALICE, 1).is_ok());

    let bobs_view = chat.get_messages_since(true, BOB, 0).unwrap();
    assert_eq!(bobs_view.len(), 1);
    assert!(matches!(&bobs_view[0].data, MessageData::Text(t) if t == "public"));
    let alices_view = chat.get_messages_since(true, ALICE, 0).unwrap();
    assert_eq!(alices_view.len(), 2);

    // Sending into a hidden room is indistinguishable from a missing room.
    let refused = chat.send_message(true, &draft(BOB, "staff", MessageData::Text("hi".to_string())), 82);
    assert_eq!(refused.unwrap_err(), ErrorCode::RoomNotFound);
}

#[test]
fn deleted_room_messages_are_not_served() {
    let mut chat = chat_with_members();
    chat.create_room(true, ALICE, room("doomed", false, false)).unwrap();
    let sent = chat
        .send_message(true, &draft(ALICE, "doomed", MessageData::Text("bye".to_string())), 83)
        .unwrap();
    chat.delete_room(true, ALICE, "doomed").unwrap();

    assert_eq!(chat.get_message(true, ALICE, sent.id).unwrap_err(), ErrorCode::MessageNotFound);
    assert!(chat.get_messages_since(true, ALICE, 0).unwrap().is_empty());
    assert_eq!(chat.delete_room(true, ALICE, "doomed").unwrap_err(), ErrorCode::RoomNotFound);
}

#[test]
fn duplicate_room_name_is_refused() {
    let mut chat = chat_with_members();
    chat.create_room(true, ALICE, room("general", false, false)).unwrap();
    let dup = chat.create_room(true, ALICE, room("general", true, true));
    assert_eq!(dup.unwrap_err(), ErrorCode::MalformedDBResponse);
    let not_admin = chat.create_room(true, BOB, room("lounge", false, false));
    assert_eq!(not_admin.unwrap_err(), ErrorCode::Unauthorized);
}

#[test]
fn reply_chain_depth_is_bounded() {
    let mut chat = chat_with_members();
    chat.create_room(true, ALICE, room("general", false, false)).unwrap();

    let head = chat
        .send_message(true, &draft(ALICE, "general", MessageData::Text("head".to_string())), 90)
        .unwrap();
    let r1 = chat
        .send_message(
            true,
            &draft(BOB, "general", MessageData::Reply(Reply { referencing_id: head.id, text: "r1".to_string() })),
            91,
        )
        .unwrap();
    chat.send_message(
        true,
        &draft(ALICE, "general", MessageData::Reply(Reply { referencing_id: r1.id, text: "r2".to_string() })),
        92,
    )
    .unwrap();

    let too_deep = chat.get_reply_chain(true, BOB, head.clone(), 9);
    assert_eq!(too_deep.unwrap_err(), ErrorCode::DepthTooLarge);

    let full = chat.get_reply_chain(true, BOB, head.clone(), 8).unwrap();
    let level1 = full.replies.as_ref().unwrap();
    assert_eq!(level1.len(), 1);
    let level2 = level1[0].replies.as_ref().unwrap();
    assert_eq!(level2.len(), 1);
    assert!(level2[0].replies.is_none());

    // A zero budget cuts the tree at the head even though replies exist.
    let stump = chat.get_reply_chain(true, BOB, head.clone(), 0).unwrap();
    assert!(stump.replies.is_none());

    let direct = chat.get_all_direct_replies(true, BOB, head.id).unwrap();
    assert_eq!(direct.len(), 1);
    assert_eq!(direct[0].id, r1.id);

    let bad_reference = chat.send_message(
        true,
        &draft(BOB, "general", MessageData::Reply(Reply { referencing_id: 77, text: "?".to_string() })),
        93,
    );
    assert_eq!(bad_reference.unwrap_err(), ErrorCode::MessageNotFound);
}

#[test]
fn roles_and_moderation() {
    let mut chat = chat_with_members();

    // Only the owner promotes and demotes.
    assert_eq!(chat.promote_user(true, BOB, BOB).unwrap_err(), ErrorCode::Unauthorized);
    chat.promote_user(true, ALICE, BOB).unwrap();
    assert!(chat.internal_is_user_admin(BOB));
    assert!(!chat.internal_is_user_owner(BOB));
    assert_eq!(
        chat.promote_user(true, ALICE, "@nobody:auth.example").unwrap_err(),
        ErrorCode::UserNotFound
    );

    // The owner cannot be demoted.
    assert_eq!(chat.demote_user(true, ALICE, ALICE).unwrap_err(), ErrorCode::Unauthorized);
    chat.demote_user(true, ALICE, BOB).unwrap();
    assert!(!chat.internal_is_user_admin(BOB));

    // Kick removes the member row.
    chat.kick_user(true, ALICE, BOB).unwrap();
    assert!(!chat.is_user_in_server(BOB));
    assert_eq!(chat.kick_user(true, ALICE, BOB).unwrap_err(), ErrorCode::UserNotFound);

    // Ban keeps the userid out until pardoned.
    chat.join_server(true, BOB).unwrap();
    chat.ban_user(true, ALICE, BOB).unwrap();
    assert!(!chat.is_user_in_server(BOB));
    assert_eq!(chat.join_server(true, BOB).unwrap_err(), ErrorCode::Unauthorized);
    chat.pardon_user(true, ALICE, BOB).unwrap();
    chat.join_server(true, BOB).unwrap();

    // Leaving and the errors around it.
    chat.leave_server(true, BOB).unwrap();
    assert_eq!(chat.leave_server(true, BOB).unwrap_err(), ErrorCode::NotInServer);
}

#[test]
fn attachment_payloads_are_reserved() {
    let mut chat = chat_with_members();
    chat.create_room(true, ALICE, room("general", false, false)).unwrap();
    let refused = chat.send_message(
        true,
        &draft(ALICE, "general", MessageData::Attachment(realm::Attachment {})),
        94,
    );
    assert_eq!(refused.unwrap_err(), ErrorCode::Error);
}

#[test]
fn unknown_sender_is_refused() {
    let mut chat = chat_with_members();
    chat.create_room(true, ALICE, room("general", false, false)).unwrap();
    let ghost_sender = chat.send_message(
        true,
        &draft("@carol:auth.example", "general", MessageData::Text("boo".to_string())),
        95,
    );
    assert_eq!(ghost_sender.unwrap_err(), ErrorCode::UserNotFound);
}

#[test]
fn member_lookups() {
    let mut chat = chat_with_members();
    assert_eq!(chat.get_info().server_id, "realm-1");
    let alice = chat.get_user(ALICE).unwrap();
    assert!(alice.owner);
    assert_eq!(chat.get_user("@carol:auth.example").unwrap_err(), ErrorCode::UserNotFound);
    let all = chat.get_users().unwrap();
    assert_eq!(all.len(), 2);
    assert_eq!(all[0].userid, ALICE);
    assert_eq!(all[1].userid, BOB);
}

#[test]
fn typing_signals_are_transient() {
    let mut chat = chat_with_members();
    chat.start_typing(true, BOB, "general").unwrap();
    chat.start_typing(true, BOB, "general").unwrap();
    assert_eq!(chat.typing_users.len(), 1);
    chat.keep_typing(true, BOB, "general").unwrap();
    assert_eq!(chat.typing_users.len(), 1);
    chat.stop_typing(true, BOB, "general").unwrap();
    assert!(chat.typing_users.is_empty());
    chat.stop_typing(true, BOB, "general").unwrap();
    assert_eq!(chat.start_typing(false, BOB, "general").unwrap_err(), ErrorCode::Unauthorized);
}
