use whatbubbles_core::app::AppState;
use whatbubbles_core::events::Event;
use whatbubbles_core::ffi::{
    archive_chat, auth_state, clear_pairing, core_greeting, core_version, data_dir,
    default_data_dir, edit_message_local, finish_apple_id_auth, finish_pairing, has_os_config,
    list_chats, list_handles, list_messages, mark_chat_read, message_row_to_view,
    os_config_summary, pairing_request, pin_chat, poll_events, relay_host, seed_demo,
    send_message_local, send_message_with, set_relay_host, start_apple_id_auth,
    start_facetime_call, stub_warning, tapback_local, unsend_message_local, AppError,
};
use whatbubbles_core::integration::IntegrationError;
use whatbubbles_core::os_config::{relay_config_from, RelayConfig, DEFAULT_RELAY_HOST};
use whatbubbles_core::storage::{ChatRecord, MessageRecord, MessageRow, Storage};
use whatbubbles_core::store_model::{Query, StorageError};

fn config() -> RelayConfig {
    relay_config_from(
        "https://relay.example",
        "CODE1234XYZ",
        None,
        "{}".to_string(),
        "dev".to_string(),
        "UDID".to_string(),
    )
}

fn seeded_app() -> AppState {
    AppState::open("/tmp/wb", Storage::open_in_memory().unwrap(), None).unwrap()
}

fn stored_messages(app: &AppState, chat: &str) -> Vec<MessageRecord> {
    app.storage().message_records().into_iter().filter(|m| m.chat_guid == chat).collect()
}

fn stored_chat(app: &AppState, guid: &str) -> ChatRecord {
    app.storage().chat_records().into_iter().find(|c| c.guid == guid).unwrap()
}

fn kinds(app: &mut AppState) -> Vec<(String, String, String, String)> {
    poll_events(app)
        .into_iter()
        .map(|d| (d.kind, d.text, d.chat_guid, d.message_guid))
        .collect()
}

#[test]
fn version_and_greeting() {
    assert_eq!(core_version(), "0.1.0");
    assert_eq!(core_greeting("Ada"), "whatbubbles_core says hi, Ada");
}

#[test]
fn the_default_data_directory() {
    assert_eq!(default_data_dir(Some("/home/a/.local/share/whatbubbles".to_string()), None), "/home/a/.local/share/whatbubbles");
    assert_eq!(
        default_data_dir(None, Some("C:\\Users\\a".to_string())),
        "C:\\Users\\a\\AppData\\Roaming\\whatbubbles\\whatbubbles"
    );
    assert_eq!(default_data_dir(None, None), ".");
}

#[test]
fn a_fresh_client_is_seeded_and_asks_for_pairing() {
    let mut app = seeded_app();
    assert_eq!(data_dir(&app), "/tmp/wb");
    assert_eq!(relay_host(&app), DEFAULT_RELAY_HOST);
    assert_eq!(auth_state(&app), "needs_pairing");
    assert!(!has_os_config(&app));
    assert_eq!(os_config_summary(&app), "none");
    assert_eq!(app.storage().chat_records().len(), 4);
    assert!(poll_events(&mut app).is_empty());
}

#[test]
fn a_paired_client_restores_its_account_state() {
    let mut s = Storage::open_in_memory().unwrap();
    s.kv_set("auth.state", "needs_extra:phone").unwrap();
    s.kv_set("relay.host", "https://mine.example").unwrap();
    let app = AppState::open("d", s, Some(config())).unwrap();
    assert_eq!(auth_state(&app), "needs_extra:phone");
    assert_eq!(relay_host(&app), "https://mine.example");
    assert!(has_os_config(&app));
    assert_eq!(os_config_summary(&app), "host=https://relay.example code=CODE1234\u{2026} udid=UDID proto=1660");
    let mut s = Storage::open_in_memory().unwrap();
    s.kv_set("auth.state", "ready").unwrap();
    let app = AppState::open("d", s, None).unwrap();
    assert_eq!(auth_state(&app), "needs_pairing");
}

#[test]
fn the_relay_host_is_trimmed_and_must_not_be_empty() {
    let mut app = seeded_app();
    assert!(matches!(set_relay_host(&mut app, "   "), Err(AppError::EmptyRelayHost)));
    assert_eq!(relay_host(&app), DEFAULT_RELAY_HOST);
    set_relay_host(&mut app, "  https://r.example \n").unwrap();
    assert_eq!(relay_host(&app), "https://r.example");
    assert_eq!(app.storage().kv_get("relay.host").unwrap(), Some("https://r.example".to_string()));
    assert_eq!(AppError::EmptyRelayHost.message(), "relay host cannot be empty");
}

#[test]
fn the_chat_list_is_empty_and_its_refusal_reported() {
    let mut app = seeded_app();
    assert!(list_chats(&mut app, false).is_empty());
    assert!(list_chats(&mut app, true).is_empty());
    let ev = kinds(&mut app);
    assert_eq!(ev.len(), 2);
    assert!(ev.iter().all(|e| e.0 == "error"));
    assert_eq!(ev[0].1, format!("list_chats: {}", StorageError::Syntax(Query::UnarchivedChats).message()));
    assert_eq!(ev[1].1, format!("list_chats: {}", StorageError::Syntax(Query::AllChats).message()));
}

#[test]
fn the_message_list_is_empty_and_its_refusal_reported() {
    let mut app = seeded_app();
    assert!(list_messages(&mut app, "chat-nyx", 0).is_empty());
    assert!(list_messages(&mut app, "chat-nyx", 100).is_empty());
    let ev = kinds(&mut app);
    assert_eq!(ev.len(), 2);
    let text = format!("list_messages: {}", StorageError::Syntax(Query::ChatMessages).message());
    assert!(ev.iter().all(|e| e.0 == "error" && e.1 == text));
}

#[test]
fn a_row_becomes_a_view_field_by_field() {
    let row = MessageRow {
        guid: "g".to_string(),
        chat_guid: "c".to_string(),
        handle_id: Some(3),
        sender_address: "+1".to_string(),
        sender_display_name: "Ann".to_string(),
        text: "hi".to_string(),
        subject: "s".to_string(),
        is_from_me: false,
        date: 10,
        date_read: 11,
        date_edited: 12,
        is_unsent: true,
        has_attachments: true,
        thread_origin_guid: "o".to_string(),
    };
    let v = message_row_to_view(row);
    assert_eq!((v.guid.as_str(), v.chat_guid.as_str(), v.sender_address.as_str()), ("g", "c", "+1"));
    assert_eq!((v.sender_display_name.as_str(), v.text.as_str(), v.subject.as_str()), ("Ann", "hi", "s"));
    assert_eq!((v.is_from_me, v.date, v.date_read, v.date_edited), (false, 10, 11, 12));
    assert_eq!((v.is_unsent, v.has_attachments, v.thread_origin_guid.as_str()), (true, true, "o"));
}

#[test]
fn handles_are_listed_by_name() {
    let mut app = seeded_app();
    let hs = list_handles(&mut app);
    assert_eq!(hs.len(), 5);
    let names: Vec<&str> = hs.iter().map(|h| h.display_name.as_str()).collect();
    let mut sorted = names.clone();
    sorted.sort();
    assert_eq!(names, sorted);
}

#[test]
fn sending_files_the_message_and_reports_it() {
    let mut app = seeded_app();
    let g = send_message_with(&mut app, "chat-kay", "on my way", "temp-x".to_string(), 5_000).unwrap();
    assert_eq!(g, "temp-x");
    let ms = stored_messages(&app, "chat-kay");
    let last = ms.iter().find(|m| m.guid == "temp-x").unwrap();
    assert!(last.is_from_me);
    assert_eq!(last.text, "on my way");
    assert_eq!(last.date, 5_000);
    assert_eq!(
        kinds(&mut app),
        vec![("message_sent".to_string(), String::new(), "chat-kay".to_string(), "temp-x".to_string())]
    );
    assert!(matches!(
        send_message_with(&mut app, "nope", "x", "temp-y".to_string(), 1),
        Err(AppError::Storage(StorageError::ForeignKey))
    ));
    assert!(poll_events(&mut app).is_empty());
}

#[test]
fn a_local_send_gets_a_temporary_guid() {
    let mut app = seeded_app();
    let g = send_message_local(&mut app, "chat-rho", "hello").unwrap();
    assert!(g.starts_with("temp-"));
    assert_eq!(g.len(), 5 + 36);
    let ms = stored_messages(&app, "chat-rho");
    assert!(ms.iter().any(|m| m.guid == g && m.text == "hello"));
    assert!(send_message_local(&mut app, "missing", "x").is_err());
}

#[test]
fn chat_commands_report_the_chat_changed() {
    let mut app = seeded_app();
    mark_chat_read(&mut app, "chat-nyx").unwrap();
    pin_chat(&mut app, "chat-kay", true, 0).unwrap();
    archive_chat(&mut app, "chat-rho", true).unwrap();
    let ev = kinds(&mut app);
    let chats: Vec<&str> = ev.iter().map(|e| e.2.as_str()).collect();
    assert_eq!(chats, vec!["chat-nyx", "chat-kay", "chat-rho"]);
    assert!(ev.iter().all(|e| e.0 == "chat_updated"));
    assert_eq!(stored_chat(&app, "chat-nyx").unread_count, 0);
    assert!(stored_chat(&app, "chat-kay").is_pinned);
    assert!(stored_chat(&app, "chat-rho").is_archived);
}

#[test]
fn message_commands_change_the_store() {
    let mut app = seeded_app();
    send_message_with(&mut app, "chat-kay", "draft", "temp-e".to_string(), 10).unwrap();
    edit_message_local(&mut app, "temp-e", "final").unwrap();
    let m = stored_messages(&app, "chat-kay").into_iter().find(|m| m.guid == "temp-e").unwrap();
    assert_eq!(m.text, "final");
    assert!(m.date_edited > 0);
    tapback_local(&mut app, "temp-e", "love").unwrap();
    assert!(matches!(
        tapback_local(&mut app, "missing", "love"),
        Err(AppError::Storage(StorageError::ForeignKey))
    ));
    unsend_message_local(&mut app, "temp-e").unwrap();
    let m = stored_messages(&app, "chat-kay").into_iter().find(|m| m.guid == "temp-e").unwrap();
    assert!(m.is_unsent);
    assert_eq!(m.text, "");
}

#[test]
fn signing_in_needs_both_fields_and_reports_the_state() {
    let mut app = seeded_app();
    assert!(matches!(start_apple_id_auth(&mut app, "", "pw"), Err(AppError::MissingCredentials)));
    assert!(poll_events(&mut app).is_empty());
    start_apple_id_auth(&mut app, "me@example.com", "pw").unwrap();
    assert_eq!(auth_state(&app), "authenticating");
    finish_apple_id_auth(&mut app, Err("bad password".to_string()));
    assert_eq!(auth_state(&app), "error:bad password");
    finish_apple_id_auth(&mut app, Ok(()));
    assert_eq!(auth_state(&app), "ready");
    assert_eq!(app.storage().kv_get("auth.state").unwrap(), Some("ready".to_string()));
    let ev = kinds(&mut app);
    let texts: Vec<&str> = ev.iter().map(|e| e.1.as_str()).collect();
    assert_eq!(texts, vec!["authenticating", "error:bad password", "ready"]);
    assert!(ev.iter().all(|e| e.0 == "auth_state"));
}

#[test]
fn pairing_requests_are_trimmed() {
    assert!(matches!(pairing_request("  ", "tok"), Err(AppError::MissingPairingCode)));
    let (c, t) = pairing_request(" CODE ", "  ").unwrap();
    assert_eq!(c, "CODE");
    assert_eq!(t, None);
    let (_, t) = pairing_request("CODE", " tok ").unwrap();
    assert_eq!(t, Some("tok".to_string()));
    assert_eq!(AppError::MissingPairingCode.message(), "pairing code is required");
}

#[test]
fn pairing_and_clearing_move_the_account() {
    let mut app = seeded_app();
    finish_pairing(&mut app, config());
    assert!(has_os_config(&app));
    assert_eq!(auth_state(&app), "needs_credentials");
    clear_pairing(&mut app).unwrap();
    assert!(!has_os_config(&app));
    assert_eq!(auth_state(&app), "needs_pairing");
    let ev = kinds(&mut app);
    let seen: Vec<(&str, &str)> = ev.iter().map(|e| (e.0.as_str(), e.1.as_str())).collect();
    assert_eq!(
        seen,
        vec![
            ("auth_state", "needs_credentials"),
            ("info", "paired with relay; enter Apple ID next"),
            ("auth_state", "needs_pairing"),
            ("info", "cleared relay pairing"),
        ]
    );
}

#[test]
fn facetime_is_not_wired_yet() {
    let app = seeded_app();
    match start_facetime_call(&app, "+1555") {
        Err(e) => assert_eq!(e.message(), "start_facetime: not yet wired \u{2014} FaceTime path in api.rs"),
        Ok(_) => panic!("facetime should be refused"),
    }
}

#[test]
fn stub_warnings_name_the_request() {
    let e = IntegrationError { message: "nope".to_string() };
    match stub_warning("tapback", &e) {
        Event::Warn(t) => assert_eq!(t, "tapback stub: nope"),
        other => panic!("unexpected {:?}", other),
    }
}

#[test]
fn seeding_again_changes_nothing() {
    let mut app = seeded_app();
    seed_demo(&mut app).unwrap();
    assert_eq!(app.storage().chat_records().len(), 4);
    assert_eq!(StorageError::ForeignKey.message(), "FOREIGN KEY constraint failed");
}
