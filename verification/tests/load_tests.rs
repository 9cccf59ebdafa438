use whatbubbles_core::storage::{
    ChatRecord, HandleRecord, KvRecord, MemberRecord, MessageRecord, ReactionRecord, Storage,
};
use whatbubbles_core::store_model::{Query, StorageError};

fn chat(guid: &str) -> ChatRecord {
    ChatRecord {
        guid: guid.to_string(),
        title: "T".to_string(),
        is_imessage: true,
        is_group: false,
        is_archived: false,
        is_pinned: false,
        pin_order: 0,
        unread_count: 0,
        last_message_date: 0,
        last_message_preview: String::new(),
        created_at: 1,
    }
}

fn handle(id: i64, address: &str) -> HandleRecord {
    HandleRecord {
        id,
        address: address.to_string(),
        service: "iMessage".to_string(),
        display_name: String::new(),
        created_at: 1,
    }
}

fn message(guid: &str, chat: &str, handle_id: Option<i64>) -> MessageRecord {
    MessageRecord {
        guid: guid.to_string(),
        chat_guid: chat.to_string(),
        handle_id,
        text: "hi".to_string(),
        subject: String::new(),
        is_from_me: false,
        date: 5,
        date_read: 0,
        date_edited: 0,
        is_unsent: false,
        has_attachments: false,
        thread_origin_guid: String::new(),
    }
}

fn reaction(guid: &str, handle_id: Option<i64>) -> ReactionRecord {
    ReactionRecord {
        message_guid: guid.to_string(),
        handle_id,
        is_from_me: false,
        reaction_type: "love".to_string(),
        timestamp: 6,
    }
}

#[test]
fn loaded_rows_keep_keys_and_references() {
    let mut s = Storage::open_in_memory().unwrap();
    assert_eq!(s.load_chat(chat("c")), Ok(()));
    assert_eq!(s.load_chat(chat("c")), Err(StorageError::Unique));
    assert_eq!(s.load_handle(handle(0, "+0")), Err(StorageError::OutOfRange));
    assert_eq!(s.load_handle(handle(7, "+1")), Ok(()));
    assert_eq!(s.load_handle(handle(7, "+2")), Err(StorageError::Unique));
    assert_eq!(s.load_handle(handle(8, "+1")), Err(StorageError::Unique));
    assert_eq!(s.handle_sequence(), 7);
    s.note_handle_sequence(3);
    assert_eq!(s.handle_sequence(), 7);
    s.note_handle_sequence(9);
    assert_eq!(s.handle_sequence(), 9);
    assert_eq!(s.upsert_handle_at("+3", "iMessage", "", 0), Ok(10));
    let member = |c: &str, h: i64| MemberRecord { chat_guid: c.to_string(), handle_id: h };
    assert_eq!(s.load_member(member("x", 7)), Err(StorageError::ForeignKey));
    assert_eq!(s.load_member(member("c", 99)), Err(StorageError::ForeignKey));
    assert_eq!(s.load_member(member("c", 7)), Ok(()));
    assert_eq!(s.load_member(member("c", 7)), Err(StorageError::Unique));
    assert_eq!(s.load_message(message("m", "x", None)), Err(StorageError::ForeignKey));
    assert_eq!(s.load_message(message("m", "c", Some(99))), Err(StorageError::ForeignKey));
    assert_eq!(s.load_message(message("m", "c", Some(7))), Ok(()));
    assert_eq!(s.load_message(message("m", "c", None)), Err(StorageError::Unique));
    assert_eq!(s.load_reaction(reaction("x", None)), Err(StorageError::ForeignKey));
    assert_eq!(s.load_reaction(reaction("m", Some(7))), Ok(()));
    assert_eq!(s.load_reaction(reaction("m", Some(7))), Err(StorageError::Unique));
    assert_eq!(s.load_reaction(reaction("m", None)), Ok(()));
    assert_eq!(s.load_reaction(reaction("m", None)), Ok(()));
    assert_eq!(s.load_setting(KvRecord { key: "k".to_string(), value: "v".to_string() }), Ok(()));
    assert_eq!(s.load_setting(KvRecord { key: "k".to_string(), value: "w".to_string() }), Err(StorageError::Unique));
    assert_eq!(s.kv_get("k").unwrap(), Some("v".to_string()));
    assert_eq!(s.message_records().len(), 1);
    assert_eq!(s.member_records().len(), 1);
}

#[test]
fn a_store_loads_back_from_its_rows() {
    let mut a = Storage::open_in_memory().unwrap();
    a.seed_demo_data_at(1_000_000).unwrap();
    a.kv_set("relay.host", "h").unwrap();
    a.add_reaction_at("seed-msg-0", Some(1), false, "like", 5).unwrap();
    let mut b = Storage::open_in_memory().unwrap();
    for r in a.chat_records() {
        b.load_chat(r).unwrap();
    }
    for r in a.handle_records() {
        b.load_handle(r).unwrap();
    }
    b.note_handle_sequence(a.handle_sequence());
    for r in a.member_records() {
        b.load_member(r).unwrap();
    }
    for r in a.message_records() {
        b.load_message(r).unwrap();
    }
    for r in a.reaction_records() {
        b.load_reaction(r).unwrap();
    }
    for r in a.setting_records() {
        b.load_setting(r).unwrap();
    }
    let ca: Vec<String> = a.chat_records().into_iter().map(|c| format!("{}|{}|{}|{}", c.guid, c.title, c.unread_count, c.last_message_date)).collect();
    let cb: Vec<String> = b.chat_records().into_iter().map(|c| format!("{}|{}|{}|{}", c.guid, c.title, c.unread_count, c.last_message_date)).collect();
    assert_eq!(ca, cb);
    let ma: Vec<(String, i64)> = a.member_records().into_iter().map(|m| (m.chat_guid, m.handle_id)).collect();
    let mb: Vec<(String, i64)> = b.member_records().into_iter().map(|m| (m.chat_guid, m.handle_id)).collect();
    assert_eq!(ma, mb);
    assert_eq!(a.message_records().len(), b.message_records().len());
    assert_eq!(a.reaction_records().len(), b.reaction_records().len());
    assert_eq!(b.kv_get("relay.host").unwrap(), Some("h".to_string()));
    assert_eq!(a.upsert_handle_at("+new", "SMS", "", 0), b.upsert_handle_at("+new", "SMS", "", 0));
}

#[test]
fn no_handle_id_is_left_past_the_largest() {
    let mut s = Storage::open_in_memory().unwrap();
    s.note_handle_sequence(i64::MAX);
    assert_eq!(s.upsert_handle_at("+1", "iMessage", "", 0), Err(StorageError::Full));
    assert!(s.handle_records().is_empty());
    assert_eq!(StorageError::Full.message(), "database or disk is full");
}

#[test]
fn the_chat_list_is_refused_and_reported() {
    let mut s = Storage::open_in_memory().unwrap();
    s.load_chat(chat("c")).unwrap();
    let mut app = whatbubbles_core::app::AppState::open("d", s, None).unwrap();
    assert!(whatbubbles_core::ffi::list_chats(&mut app, true).is_empty());
    assert!(whatbubbles_core::ffi::list_messages(&mut app, "c", 5).is_empty());
    let events = whatbubbles_core::ffi::poll_events(&mut app);
    assert_eq!(events.len(), 2);
    assert_eq!(events[0].kind, "error");
    assert_eq!(
        events[0].text,
        format!("list_chats: {}", StorageError::Syntax(Query::AllChats).message())
    );
    assert_eq!(
        events[1].text,
        format!("list_messages: {}", StorageError::Syntax(Query::ChatMessages).message())
    );
}
