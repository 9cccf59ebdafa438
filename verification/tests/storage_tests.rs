use whatbubbles_core::storage::{ChatRecord, MessageRecord, MessageRow, Storage};
use whatbubbles_core::store_model::{Query, StorageError};

fn message(guid: &str, chat: &str, handle: Option<i64>, text: &str, me: bool, date: i64) -> MessageRow {
    MessageRow {
        guid: guid.to_string(),
        chat_guid: chat.to_string(),
        handle_id: handle,
        sender_address: String::new(),
        sender_display_name: String::new(),
        text: text.to_string(),
        subject: String::new(),
        is_from_me: me,
        date,
        date_read: 0,
        date_edited: 0,
        is_unsent: false,
        has_attachments: false,
        thread_origin_guid: String::new(),
    }
}

fn chat(s: &Storage, guid: &str) -> ChatRecord {
    s.chat_records().into_iter().find(|c| c.guid == guid).unwrap()
}

fn messages(s: &Storage, chat: &str) -> Vec<MessageRecord> {
    s.message_records().into_iter().filter(|m| m.chat_guid == chat).collect()
}

fn members(s: &Storage, chat: &str) -> Vec<i64> {
    s.member_records().into_iter().filter(|m| m.chat_guid == chat).map(|m| m.handle_id).collect()
}

#[test]
fn kv_reads_back_what_was_written() {
    let mut s = Storage::open_in_memory().unwrap();
    assert_eq!(s.kv_get("relay.host").unwrap(), None);
    s.kv_set("relay.host", "https://a.example").unwrap();
    s.kv_set("auth.state", "ready").unwrap();
    assert_eq!(s.kv_get("relay.host").unwrap(), Some("https://a.example".to_string()));
    s.kv_set("relay.host", "https://b.example").unwrap();
    assert_eq!(s.kv_get("relay.host").unwrap(), Some("https://b.example".to_string()));
    assert_eq!(s.kv_get("auth.state").unwrap(), Some("ready".to_string()));
}

#[test]
fn upsert_handle_keeps_its_id_and_takes_the_new_name() {
    let mut s = Storage::open_in_memory().unwrap();
    let a = s.upsert_handle_at("+1555", "iMessage", "Ann", 10).unwrap();
    let b = s.upsert_handle_at("+1555", "SMS", "Ann (sms)", 11).unwrap();
    let a2 = s.upsert_handle_at("+1555", "iMessage", "Annie", 12).unwrap();
    assert_eq!(a, 1);
    assert_eq!(b, 2);
    assert_eq!(a2, a);
    let hs = s.list_handles().unwrap();
    assert_eq!(hs.len(), 2);
    assert_eq!(hs[0].display_name, "Ann (sms)");
    assert_eq!(hs[1].display_name, "Annie");
    assert_eq!(hs[1].id, 1);
}

#[test]
fn list_handles_orders_by_name_then_address() {
    let mut s = Storage::open_in_memory().unwrap();
    s.upsert_handle_at("z@example.com", "iMessage", "Bo", 0).unwrap();
    s.upsert_handle_at("a@example.com", "iMessage", "Bo", 0).unwrap();
    s.upsert_handle_at("m@example.com", "iMessage", "Al", 0).unwrap();
    s.upsert_handle_at("q@example.com", "iMessage", "", 0).unwrap();
    let hs = s.list_handles().unwrap();
    let order: Vec<&str> = hs.iter().map(|h| h.address.as_str()).collect();
    assert_eq!(order, vec!["q@example.com", "m@example.com", "a@example.com", "z@example.com"]);
}

#[test]
fn the_chat_list_query_is_refused() {
    let mut s = Storage::open_in_memory().unwrap();
    s.upsert_chat_at("c1", "One", true, false, 0).unwrap();
    assert_eq!(s.list_chats(true).map(|v| v.len()), Err(StorageError::Syntax(Query::AllChats)));
    assert_eq!(s.list_chats(false).map(|v| v.len()), Err(StorageError::Syntax(Query::UnarchivedChats)));
    assert_eq!(
        StorageError::Syntax(Query::AllChats).message(),
        "near \"BY\": syntax error in SELECT guid, title, is_imessage, is_group, is_archived, is_pinned, pin_order,unread_count, last_message_date, last_message_previewFROM chatsORDER BY is_pinned DESC, pin_order ASC, last_message_date DESC at offset 146"
    );
    assert_eq!(
        StorageError::Syntax(Query::UnarchivedChats).message(),
        "unrecognized token: \"0ORDER\" in SELECT guid, title, is_imessage, is_group, is_archived, is_pinned, pin_order,unread_count, last_message_date, last_message_previewFROM chats WHERE is_archived = 0ORDER BY is_pinned DESC, pin_order ASC, last_message_date DESC at offset 161"
    );
}

#[test]
fn the_participants_and_messages_queries_are_refused() {
    let mut s = Storage::open_in_memory().unwrap();
    s.upsert_chat_at("c", "", true, false, 0).unwrap();
    assert_eq!(s.participants_summary("c"), Err(StorageError::Syntax(Query::ChatParticipants)));
    assert_eq!(s.messages_for_chat("c", 10).map(|v| v.len()), Err(StorageError::Syntax(Query::ChatMessages)));
    assert_eq!(
        StorageError::Syntax(Query::ChatParticipants).message(),
        "near \"handles\": syntax error in SELECT COALESCE(NULLIF(h.display_name,''), h.address) FROM chat_handles chJOIN handles h ON h.id = ch.handle_idWHERE ch.chat_guid = ? ORDER BY h.display_name LIMIT 6 at offset 79"
    );
    assert_eq!(
        StorageError::Syntax(Query::ChatMessages).message(),
        "near \"m\": syntax error in SELECT m.guid, m.chat_guid, m.handle_id,COALESCE(h.address, '') as sender_address,COALESCE(NULLIF(h.display_name,''), h.address, '') as sender_name,m.text, m.subject, m.is_from_me, m.date, m.date_read, m.date_edited,m.is_unsent, m.has_attachments, m.thread_origin_guidFROM messages m LEFT JOIN handles h ON h.id = m.handle_idWHERE m.chat_guid = ? ORDER BY m.date ASC LIMIT ? at offset 282"
    );
}

#[test]
fn pins_and_archive_flags_are_kept() {
    let mut s = Storage::open_in_memory().unwrap();
    s.upsert_chat_at("c1", "One", true, false, 0).unwrap();
    s.upsert_chat_at("c3", "Three", true, false, 0).unwrap();
    s.set_chat_pin("c1", true, 1).unwrap();
    s.set_chat_archived("c3", true).unwrap();
    assert!(chat(&s, "c1").is_pinned);
    assert_eq!(chat(&s, "c1").pin_order, 1);
    assert!(chat(&s, "c3").is_archived);
    assert!(!chat(&s, "c3").is_pinned);
}

#[test]
fn upsert_chat_replaces_title_and_keeps_the_rest() {
    let mut s = Storage::open_in_memory().unwrap();
    s.upsert_chat_at("c1", "Old", true, false, 5).unwrap();
    s.set_chat_pin("c1", true, 3).unwrap();
    s.upsert_chat_at("c1", "New", false, true, 9).unwrap();
    let rows = s.chat_records();
    assert_eq!(rows.len(), 1);
    assert_eq!(rows[0].title, "New");
    assert!(!rows[0].is_imessage);
    assert!(rows[0].is_group);
    assert!(rows[0].is_pinned);
    assert_eq!(rows[0].pin_order, 3);
    assert_eq!(rows[0].created_at, 5);
}

#[test]
fn participants_need_an_existing_chat_and_handles() {
    let mut s = Storage::open_in_memory().unwrap();
    let h = s.upsert_handle_at("+1", "iMessage", "Ann", 0).unwrap();
    assert_eq!(s.set_chat_participants("nope", &[h]), Err(StorageError::ForeignKey));
    s.upsert_chat_at("c", "", true, false, 0).unwrap();
    assert_eq!(s.set_chat_participants("c", &[h, 99]), Err(StorageError::ForeignKey));
    assert_eq!(s.set_chat_participants("c", &[]), Ok(()));
    assert!(members(&s, "c").is_empty());
}

#[test]
fn participants_are_replaced_each_once_in_order() {
    let mut s = Storage::open_in_memory().unwrap();
    s.upsert_chat_at("c", "", true, true, 0).unwrap();
    let a = s.upsert_handle_at("+1", "iMessage", "A", 0).unwrap();
    let b = s.upsert_handle_at("+2", "iMessage", "B", 0).unwrap();
    s.set_chat_participants("c", &[a, b, a]).unwrap();
    assert_eq!(members(&s, "c"), vec![a, b]);
    s.set_chat_participants("c", &[b]).unwrap();
    assert_eq!(members(&s, "c"), vec![b]);
}

#[test]
fn insert_message_needs_its_chat_and_sender() {
    let mut s = Storage::open_in_memory().unwrap();
    assert_eq!(s.insert_message(&message("m", "c", None, "hi", true, 1)), Err(StorageError::ForeignKey));
    s.upsert_chat_at("c", "C", true, false, 0).unwrap();
    assert_eq!(s.insert_message(&message("m", "c", Some(7), "hi", false, 1)), Err(StorageError::ForeignKey));
    assert_eq!(s.insert_message(&message("m", "c", None, "hi", true, 1)), Ok(()));
}

#[test]
fn received_messages_count_as_unread_until_read() {
    let mut s = Storage::open_in_memory().unwrap();
    let h = s.upsert_handle_at("+1", "iMessage", "Ann", 0).unwrap();
    s.upsert_chat_at("c", "C", true, false, 0).unwrap();
    s.insert_message(&message("m1", "c", Some(h), "one", false, 50)).unwrap();
    s.insert_message(&message("m2", "c", Some(h), "two", false, 40)).unwrap();
    s.insert_message(&message("m3", "c", None, "mine", true, 45)).unwrap();
    let c = chat(&s, "c");
    assert_eq!(c.unread_count, 2);
    assert_eq!(c.last_message_date, 50);
    assert_eq!(c.last_message_preview, "mine");
    s.mark_chat_read_at("c", 77).unwrap();
    assert_eq!(chat(&s, "c").unread_count, 0);
    let read: Vec<i64> = messages(&s, "c").iter().map(|m| m.date_read).collect();
    assert_eq!(read, vec![77, 77, 0]);
}

#[test]
fn a_message_filed_again_replaces_the_first() {
    let mut s = Storage::open_in_memory().unwrap();
    s.upsert_chat_at("c", "C", true, false, 0).unwrap();
    s.insert_message(&message("m", "c", None, "first", true, 10)).unwrap();
    s.add_reaction_at("m", Some(1), false, "love", 11).unwrap();
    s.insert_message(&message("m", "c", None, "second", true, 5)).unwrap();
    let ms = messages(&s, "c");
    assert_eq!(ms.len(), 1);
    assert_eq!(ms[0].text, "second");
    assert!(s.reaction_records().is_empty());
    assert_eq!(chat(&s, "c").last_message_date, 10);
}

#[test]
fn edit_and_unsend_change_the_text() {
    let mut s = Storage::open_in_memory().unwrap();
    s.upsert_chat_at("c", "C", true, false, 0).unwrap();
    s.insert_message(&message("m", "c", None, "draft", true, 10)).unwrap();
    s.edit_message_at("m", "final", 12).unwrap();
    let ms = messages(&s, "c");
    assert_eq!(ms[0].text, "final");
    assert_eq!(ms[0].date_edited, 12);
    s.unsend_message("m").unwrap();
    let ms = messages(&s, "c");
    assert_eq!(ms[0].text, "");
    assert!(ms[0].is_unsent);
}

#[test]
fn reactions_need_their_message() {
    let mut s = Storage::open_in_memory().unwrap();
    assert_eq!(s.add_reaction_at("m", None, true, "like", 1), Err(StorageError::ForeignKey));
    s.upsert_chat_at("c", "C", true, false, 0).unwrap();
    s.insert_message(&message("m", "c", None, "hi", true, 10)).unwrap();
    assert_eq!(s.add_reaction_at("m", None, true, "like", 1), Ok(()));
    assert_eq!(s.add_reaction("m", Some(4), false, "like"), Ok(()));
    assert_eq!(s.reaction_records().len(), 2);
}

#[test]
fn filing_a_handle_again_returns_its_id() {
    let mut s = Storage::open_in_memory().unwrap();
    assert_eq!(s.upsert_handle("+1", "iMessage", "A"), Ok(1));
    assert_eq!(s.upsert_handle("+1", "iMessage", "B"), Ok(1));
    assert_eq!(s.upsert_handle("+2", "iMessage", "C"), Ok(3));
    assert_eq!(s.handle_sequence(), 3);
}

#[test]
fn seeding_files_four_chats_once() {
    let mut s = Storage::open_in_memory().unwrap();
    s.seed_demo_data_at(1_000_000).unwrap();
    let chats = s.chat_records();
    let order: Vec<&str> = chats.iter().map(|c| c.guid.as_str()).collect();
    assert_eq!(order, vec!["chat-nyx", "chat-kay", "chat-rho", "chat-group"]);
    let unread: Vec<i64> = chats.iter().map(|c| c.unread_count).collect();
    assert_eq!(unread, vec![2, 1, 1, 2]);
    assert_eq!(chats[0].last_message_preview, "no worries \u{2014} dinner still on?");
    assert_eq!(chats[0].last_message_date, 1_000_000 - 900);
    assert_eq!(chats[3].last_message_date, 1_000_000 - 240);
    assert!(chats[0].is_pinned);
    assert_eq!(chats[3].title, "Friday roll");
    assert_eq!(s.list_handles().unwrap().len(), 5);
    assert_eq!(members(&s, "chat-group"), vec![4, 5]);
    let ms = messages(&s, "chat-nyx");
    let guids: Vec<&str> = ms.iter().map(|m| m.guid.as_str()).collect();
    assert_eq!(guids, vec!["seed-msg-0", "seed-msg-1", "seed-msg-2"]);
    assert_eq!(ms[0].date_read, 1_000_000 - 3600);
    assert_eq!(ms[1].date_read, 0);
    s.seed_demo_data_at(2_000_000).unwrap();
    assert_eq!(s.chat_records().len(), 4);
    assert_eq!(messages(&s, "chat-kay").len(), 2);
}

#[test]
fn a_received_message_counts_one_unread() {
    let mut s = Storage::open_in_memory().unwrap();
    s.upsert_chat_at("c", "C", true, false, 0).unwrap();
    s.insert_message(&message("m", "c", None, "x", false, 1)).unwrap();
    assert_eq!(chat(&s, "c").unread_count, 1);
}

#[test]
fn seeding_by_the_clock_fills_a_fresh_store() {
    let mut s = Storage::open_in_memory().unwrap();
    assert_eq!(s.seed_demo_data(), Ok(()));
    let mut guids: Vec<String> = s.chat_records().into_iter().map(|c| c.guid).collect();
    guids.sort();
    assert_eq!(guids, vec!["chat-group", "chat-kay", "chat-nyx", "chat-rho"]);
    assert!(!chat(&s, "chat-rho").is_imessage);
    assert_eq!(chat(&s, "chat-kay").last_message_preview, "thanks \u{1F64F}");
    assert_eq!(s.list_handles().unwrap().len(), 5);
}

#[test]
fn seeding_dates_wrap_as_i64_arithmetic_does() {
    let mut s = Storage::open_in_memory().unwrap();
    s.seed_demo_data_at(i64::MIN + 100).unwrap();
    assert_eq!(messages(&s, "chat-rho")[0].date, i64::MIN + 40);
    let dates: Vec<i64> = messages(&s, "chat-kay").iter().map(|m| m.date).collect();
    assert!(dates.contains(&(i64::MIN + 100).wrapping_sub(7200)));
}
