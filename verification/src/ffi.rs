//! The commands the interface gives the core, and the records it gets back.

use vstd::prelude::*;
use vstd::string::*;

use crate::app::{AppState, AppView, with_auth};
use crate::clock::now_epoch;
use crate::events::{Event, EventDto, EventView, event_to_dto, event_dto};
use crate::integration::{self, AuthState, AuthStateView, IntegrationError};
use crate::os_config::{RelayConfig, config_summary, os_config_summary_of, hyphenated, is_v4, new_uuid_string};
use crate::rank::views;
use crate::storage::MessageRow;
use crate::store_model::{
    StorageError, Query, MessageRowView, HandleRowView, insert_message,
    mark_chat_read as mark_read_model, set_pin, set_archived, add_reaction, edit_message,
    unsend_message, list_handles as list_handles_model, message_accepted, seed_demo as seed_demo_model, seed_demo_result,
};
use crate::text::{concat, trim, trim_seq};

verus! {

/// A chat as the interface lists it.
#[derive(Clone, Debug)]
pub struct ChatSummary {
    pub guid: String,
    pub title: String,
    pub subtitle: String,
    pub participant_summary: String,
    pub is_imessage: bool,
    pub is_group: bool,
    pub is_pinned: bool,
    pub is_archived: bool,
    pub pin_order: i32,
    pub unread_count: i32,
    pub last_message_date: i64,
}

/// A message as the interface shows it.
#[derive(Clone, Debug)]
pub struct MessageView {
    pub guid: String,
    pub chat_guid: String,
    pub sender_address: String,
    pub sender_display_name: String,
    pub text: String,
    pub subject: String,
    pub is_from_me: bool,
    pub date: i64,
    pub date_read: i64,
    pub date_edited: i64,
    pub is_unsent: bool,
    pub has_attachments: bool,
    pub thread_origin_guid: String,
}

/// A handle as the interface lists it.
#[derive(Clone, Debug)]
pub struct HandleInfo {
    pub id: i64,
    pub address: String,
    pub service: String,
    pub display_name: String,
}

pub struct ChatSummaryView {
    pub guid: Seq<char>,
    pub title: Seq<char>,
    pub subtitle: Seq<char>,
    pub participant_summary: Seq<char>,
    pub is_imessage: bool,
    pub is_group: bool,
    pub is_pinned: bool,
    pub is_archived: bool,
    pub pin_order: i32,
    pub unread_count: i32,
    pub last_message_date: i64,
}

pub struct MessageViewView {
    pub guid: Seq<char>,
    pub chat_guid: Seq<char>,
    pub sender_address: Seq<char>,
    pub sender_display_name: Seq<char>,
    pub text: Seq<char>,
    pub subject: Seq<char>,
    pub is_from_me: bool,
    pub date: i64,
    pub date_read: i64,
    pub date_edited: i64,
    pub is_unsent: bool,
    pub has_attachments: bool,
    pub thread_origin_guid: Seq<char>,
}

impl View for ChatSummary {
    type V = ChatSummaryView;

    open spec fn view(&self) -> ChatSummaryView {
        ChatSummaryView {
            guid: self.guid@,
            title: self.title@,
            subtitle: self.subtitle@,
            participant_summary: self.participant_summary@,
            is_imessage: self.is_imessage,
            is_group: self.is_group,
            is_pinned: self.is_pinned,
            is_archived: self.is_archived,
            pin_order: self.pin_order,
            unread_count: self.unread_count,
            last_message_date: self.last_message_date,
        }
    }
}

impl View for MessageView {
    type V = MessageViewView;

    open spec fn view(&self) -> MessageViewView {
        MessageViewView {
            guid: self.guid@,
            chat_guid: self.chat_guid@,
            sender_address: self.sender_address@,
            sender_display_name: self.sender_display_name@,
            text: self.text@,
            subject: self.subject@,
            is_from_me: self.is_from_me,
            date: self.date,
            date_read: self.date_read,
            date_edited: self.date_edited,
            is_unsent: self.is_unsent,
            has_attachments: self.has_attachments,
            thread_origin_guid: self.thread_origin_guid@,
        }
    }
}

impl View for HandleInfo {
    type V = HandleRowView;

    open spec fn view(&self) -> HandleRowView {
        HandleRowView {
            id: self.id,
            address: self.address@,
            service: self.service@,
            display_name: self.display_name@,
        }
    }
}

/// Why a command was refused.
#[derive(Clone, Debug)]
pub enum AppError {
    Storage(StorageError),
    EmptyRelayHost,
    MissingCredentials,
    MissingPairingCode,
    Integration(IntegrationError),
}

impl StorageError {
    /// A sentence that says why.
    pub fn message(&self) -> (r: String)
        ensures
            r@ == storage_error_text(*self),
    {
        match self {
            StorageError::ForeignKey => String::from_str("FOREIGN KEY constraint failed"),
            StorageError::Full => String::from_str("database or disk is full"),
            StorageError::OutOfRange => String::from_str("integral value out of range"),
            StorageError::Unique => String::from_str("UNIQUE constraint failed"),
            StorageError::Syntax(q) => String::from_str(syntax_error_message(*q)),
        }
    }
}

/// What the database engine reports of a query it cannot prepare: the
/// message, the SQL text and the byte offset of the token it stopped at.
pub open spec fn syntax_error_text(q: Query) -> Seq<char> {
    match q {
        Query::AllChats => "near \"BY\": syntax error in SELECT guid, title, is_imessage, is_group, is_archived, is_pinned, pin_order,unread_count, last_message_date, last_message_previewFROM chatsORDER BY is_pinned DESC, pin_order ASC, last_message_date DESC at offset 146"@,
        Query::UnarchivedChats => "unrecognized token: \"0ORDER\" in SELECT guid, title, is_imessage, is_group, is_archived, is_pinned, pin_order,unread_count, last_message_date, last_message_previewFROM chats WHERE is_archived = 0ORDER BY is_pinned DESC, pin_order ASC, last_message_date DESC at offset 161"@,
        Query::ChatParticipants => "near \"handles\": syntax error in SELECT COALESCE(NULLIF(h.display_name,''), h.address) FROM chat_handles chJOIN handles h ON h.id = ch.handle_idWHERE ch.chat_guid = ? ORDER BY h.display_name LIMIT 6 at offset 79"@,
        Query::ChatMessages => "near \"m\": syntax error in SELECT m.guid, m.chat_guid, m.handle_id,COALESCE(h.address, '') as sender_address,COALESCE(NULLIF(h.display_name,''), h.address, '') as sender_name,m.text, m.subject, m.is_from_me, m.date, m.date_read, m.date_edited,m.is_unsent, m.has_attachments, m.thread_origin_guidFROM messages m LEFT JOIN handles h ON h.id = m.handle_idWHERE m.chat_guid = ? ORDER BY m.date ASC LIMIT ? at offset 282"@,
    }
}

fn syntax_error_message(q: Query) -> (r: &'static str)
    ensures
        r@ == syntax_error_text(q),
{
    match q {
        Query::AllChats => "near \"BY\": syntax error in SELECT guid, title, is_imessage, is_group, is_archived, is_pinned, pin_order,unread_count, last_message_date, last_message_previewFROM chatsORDER BY is_pinned DESC, pin_order ASC, last_message_date DESC at offset 146",
        Query::UnarchivedChats => "unrecognized token: \"0ORDER\" in SELECT guid, title, is_imessage, is_group, is_archived, is_pinned, pin_order,unread_count, last_message_date, last_message_previewFROM chats WHERE is_archived = 0ORDER BY is_pinned DESC, pin_order ASC, last_message_date DESC at offset 161",
        Query::ChatParticipants => "near \"handles\": syntax error in SELECT COALESCE(NULLIF(h.display_name,''), h.address) FROM chat_handles chJOIN handles h ON h.id = ch.handle_idWHERE ch.chat_guid = ? ORDER BY h.display_name LIMIT 6 at offset 79",
        Query::ChatMessages => "near \"m\": syntax error in SELECT m.guid, m.chat_guid, m.handle_id,COALESCE(h.address, '') as sender_address,COALESCE(NULLIF(h.display_name,''), h.address, '') as sender_name,m.text, m.subject, m.is_from_me, m.date, m.date_read, m.date_edited,m.is_unsent, m.has_attachments, m.thread_origin_guidFROM messages m LEFT JOIN handles h ON h.id = m.handle_idWHERE m.chat_guid = ? ORDER BY m.date ASC LIMIT ? at offset 282",
    }
}

pub open spec fn storage_error_text(e: StorageError) -> Seq<char> {
    match e {
        StorageError::ForeignKey => "FOREIGN KEY constraint failed"@,
        StorageError::Full => "database or disk is full"@,
        StorageError::OutOfRange => "integral value out of range"@,
        StorageError::Unique => "UNIQUE constraint failed"@,
        StorageError::Syntax(q) => syntax_error_text(q),
    }
}

impl AppError {
    /// A sentence that says why.
    pub fn message(&self) -> (r: String)
        ensures
            r@ == app_error_text(*self),
    {
        match self {
            AppError::Storage(e) => e.message(),
            AppError::EmptyRelayHost => String::from_str("relay host cannot be empty"),
            AppError::MissingCredentials => String::from_str("apple_id and password are required"),
            AppError::MissingPairingCode => String::from_str("pairing code is required"),
            AppError::Integration(e) => e.message.clone(),
        }
    }
}

pub open spec fn app_error_text(e: AppError) -> Seq<char> {
    match e {
        AppError::Storage(s) => storage_error_text(s),
        AppError::EmptyRelayHost => "relay host cannot be empty"@,
        AppError::MissingCredentials => "apple_id and password are required"@,
        AppError::MissingPairingCode => "pairing code is required"@,
        AppError::Integration(i) => i.message@,
    }
}

/// The version of this core.
pub fn core_version() -> (r: String)
    ensures
        r@ == "0.1.0"@,
{
    String::from_str("0.1.0")
}

/// The greeting the interface shows to check that the core is linked.
pub fn core_greeting(name: &str) -> (r: String)
    ensures
        r@ == "whatbubbles_core says hi, "@ + name@,
{
    concat("whatbubbles_core says hi, ", name)
}

/// The data directory to use: the platform's project directory where there
/// is one, else one under the user profile, else the working directory.
pub fn default_data_dir(project_dir: Option<String>, user_profile: Option<String>) -> (r: String)
    ensures
        r@ == match (project_dir, user_profile) {
            (Some(p), _) => p@,
            (None, Some(h)) => h@ + "\\AppData\\Roaming\\whatbubbles\\whatbubbles"@,
            (None, None) => "."@,
        },
{
    match project_dir {
        Some(p) => p,
        None => match user_profile {
            Some(h) => concat(h.as_str(), "\\AppData\\Roaming\\whatbubbles\\whatbubbles"),
            None => String::from_str("."),
        },
    }
}

/// The data directory of the client.
pub fn data_dir(app: &AppState) -> (r: String)
    ensures
        r@ == app@.data_dir,
{
    app.data_dir()
}

/// The label of the account state.
pub fn auth_state(app: &AppState) -> (r: String)
    ensures
        r@ == crate::integration::label_of(app@.auth),
{
    app.auth_label()
}

/// The relay host.
pub fn relay_host(app: &AppState) -> (r: String)
    ensures
        r@ == app@.relay_host,
{
    app.relay_host()
}

/// Sets the relay host, without surrounding white space; an empty one is refused.
pub fn set_relay_host(app: &mut AppState, host: &str) -> (r: Result<(), AppError>)
    requires
        old(app)@.store.wf(),
    ensures
        trim_seq(host@).len() == 0 ==> (r matches Err(AppError::EmptyRelayHost) && final(app)@ == old(app)@),
        trim_seq(host@).len() > 0 ==> (r is Ok && final(app)@ == (AppView {
            relay_host: trim_seq(host@),
            store: crate::store_model::kv_set(old(app)@.store, "relay.host"@, trim_seq(host@)),
            ..old(app)@
        })),
        final(app)@.store.wf(),
{
    let trimmed = trim(host);
    if trimmed.as_str().unicode_len() == 0 {
        return Err(AppError::EmptyRelayHost);
    }
    match app.set_relay_host(trimmed) {
        Ok(()) => Ok(()),
        Err(e) => Err(AppError::Storage(e)),
    }
}

/// Whether the client is paired with a relay.
pub fn has_os_config(app: &AppState) -> (r: bool)
    ensures
        r == app@.config is Some,
{
    app.has_os_config()
}

/// One line describing the pairing, or "none".
pub fn os_config_summary(app: &AppState) -> (r: String)
    ensures
        r@ == config_summary(app@.config),
{
    os_config_summary_of(app.os_config())
}

/// The chats as the interface lists them: each chat, titled by its
/// participants where it has no title of its own. The store cannot prepare
/// its chat list query, so the list is always empty and the refusal is
/// reported.
pub fn list_chats(app: &mut AppState, include_archived: bool) -> (r: Vec<ChatSummary>)
    requires
        old(app)@.store.wf(),
    ensures
        r@.len() == 0,
        final(app)@ == (AppView {
            events: old(app)@.events.push(
                EventView::Error(
                    "list_chats: "@ + storage_error_text(
                        StorageError::Syntax(
                            if include_archived {
                                Query::AllChats
                            } else {
                                Query::UnarchivedChats
                            },
                        ),
                    ),
                ),
            ),
            ..old(app)@
        }),
        final(app)@.store.wf(),
{
    let rows = match app.storage().list_chats(include_archived) {
        Ok(rows) => rows,
        Err(e) => {
            let text = concat("list_chats: ", e.message().as_str());
            app.notify(Event::Error(text));
            return Vec::new();
        },
    };
    let mut out: Vec<ChatSummary> = Vec::new();
    let mut i: usize = 0;
    while i < rows.len()
        invariant
            i <= rows@.len(),
        decreases rows@.len() - i,
    {
        let row = &rows[i];
        let participants = match app.storage().participants_summary(row.guid.as_str()) {
            Ok(p) => p,
            Err(_) => String::new(),
        };
        let title = if row.title.as_str().unicode_len() == 0 {
            participants.clone()
        } else {
            row.title.clone()
        };
        out.push(ChatSummary {
            guid: row.guid.clone(),
            title,
            subtitle: row.last_message_preview.clone(),
            participant_summary: participants,
            is_imessage: row.is_imessage,
            is_group: row.is_group,
            is_pinned: row.is_pinned,
            is_archived: row.is_archived,
            pin_order: row.pin_order,
            unread_count: row.unread_count,
            last_message_date: row.last_message_date,
        });
        i = i + 1;
    }
    out
}

/// How the interface shows a message.
pub open spec fn message_view_of(m: MessageRowView) -> MessageViewView {
    MessageViewView {
        guid: m.guid,
        chat_guid: m.chat_guid,
        sender_address: m.sender_address,
        sender_display_name: m.sender_display_name,
        text: m.text,
        subject: m.subject,
        is_from_me: m.is_from_me,
        date: m.date,
        date_read: m.date_read,
        date_edited: m.date_edited,
        is_unsent: m.is_unsent,
        has_attachments: m.has_attachments,
        thread_origin_guid: m.thread_origin_guid,
    }
}

/// A message as the interface shows it.
pub fn message_row_to_view(m: MessageRow) -> (r: MessageView)
    ensures
        r@ == message_view_of(m@),
{
    MessageView {
        guid: m.guid,
        chat_guid: m.chat_guid,
        sender_address: m.sender_address,
        sender_display_name: m.sender_display_name,
        text: m.text,
        subject: m.subject,
        is_from_me: m.is_from_me,
        date: m.date,
        date_read: m.date_read,
        date_edited: m.date_edited,
        is_unsent: m.is_unsent,
        has_attachments: m.has_attachments,
        thread_origin_guid: m.thread_origin_guid,
    }
}

/// The chat's messages as the interface shows them, at least one asked
/// for. The store cannot prepare its message query, so the list is always
/// empty and the refusal is reported.
pub fn list_messages(app: &mut AppState, chat_guid: &str, limit: i64) -> (r: Vec<MessageView>)
    requires
        old(app)@.store.wf(),
    ensures
        r@.len() == 0,
        final(app)@ == (AppView {
            events: old(app)@.events.push(
                EventView::Error("list_messages: "@ + storage_error_text(StorageError::Syntax(Query::ChatMessages))),
            ),
            ..old(app)@
        }),
        final(app)@.store.wf(),
{
    let lim = if limit < 1 { 1 } else { limit };
    let rows = match app.storage().messages_for_chat(chat_guid, lim) {
        Ok(rows) => rows,
        Err(e) => {
            let text = concat("list_messages: ", e.message().as_str());
            app.notify(Event::Error(text));
            return Vec::new();
        },
    };
    let mut rows = rows;
    let mut out: Vec<MessageView> = Vec::new();
    while rows.len() > 0
        decreases rows@.len(),
    {
        let row = rows.remove(0);
        out.push(message_row_to_view(row));
    }
    out
}

/// The handles as the interface lists them, by display name, then address.
pub fn list_handles(app: &mut AppState) -> (r: Vec<HandleInfo>)
    requires
        old(app)@.store.wf(),
    ensures
        views(r@) == list_handles_model(old(app)@.store),
        final(app)@ == old(app)@,
{
    let rows = match app.storage().list_handles() {
        Ok(rows) => rows,
        Err(e) => {
            let text = concat("list_handles: ", e.message().as_str());
            app.notify(Event::Error(text));
            return Vec::new();
        },
    };
    let ghost rv = views(rows@);
    let mut out: Vec<HandleInfo> = Vec::new();
    let mut i: usize = 0;
    while i < rows.len()
        invariant
            rv == views(rows@),
            i <= rows@.len(),
            views(out@) == rv.take(i as int),
        decreases rows@.len() - i,
    {
        let h = &rows[i];
        let info = HandleInfo {
            id: h.id,
            address: h.address.clone(),
            service: h.service.clone(),
            display_name: h.display_name.clone(),
        };
        proof {
            assert(views(out@.push(info)) =~= views(out@).push(info@));
            assert(rv.take(i + 1) =~= rv.take(i as int).push(rv[i as int]));
        }
        out.push(info);
        i = i + 1;
    }
    assert(rv.take(rv.len() as int) =~= rv);
    out
}

/// A message written here, before it is handed to the network.
pub open spec fn local_message(chat_guid: Seq<char>, text: Seq<char>, guid: Seq<char>, now: i64) -> MessageRowView {
    MessageRowView {
        guid,
        chat_guid,
        handle_id: None,
        sender_address: Seq::empty(),
        sender_display_name: Seq::empty(),
        text,
        subject: Seq::empty(),
        is_from_me: true,
        date: now,
        date_read: 0,
        date_edited: 0,
        is_unsent: false,
        has_attachments: false,
        thread_origin_guid: Seq::empty(),
    }
}

/// The client after a message written here was filed under `guid` and reported sent.
pub open spec fn after_local_send(a: AppView, chat_guid: Seq<char>, text: Seq<char>, guid: Seq<char>, now: i64) -> AppView {
    AppView {
        store: insert_message(a.store, local_message(chat_guid, text, guid, now)),
        events: a.events.push(EventView::MessageSent { chat_guid, message_guid: guid }),
        ..a
    }
}

/// Files a message written here under `guid` as of `now` and reports it
/// sent. Refused where the chat does not exist.
pub fn send_message_with(app: &mut AppState, chat_guid: &str, text: &str, guid: String, now: i64) -> (r: Result<String, AppError>)
    requires
        old(app)@.store.wf(),
    ensures
        message_accepted(old(app)@.store, local_message(chat_guid@, text@, guid@, now)) ==> (r matches Ok(g)
            && g@ == guid@ && final(app)@ == after_local_send(old(app)@, chat_guid@, text@, guid@, now)),
        !message_accepted(old(app)@.store, local_message(chat_guid@, text@, guid@, now)) ==> (r matches Err(
            AppError::Storage(StorageError::ForeignKey),
        ) && final(app)@ == old(app)@),
        final(app)@.store.wf(),
{
    let row = MessageRow {
        guid: guid.clone(),
        chat_guid: String::from_str(chat_guid),
        handle_id: None,
        sender_address: String::new(),
        sender_display_name: String::new(),
        text: String::from_str(text),
        subject: String::new(),
        is_from_me: true,
        date: now,
        date_read: 0,
        date_edited: 0,
        is_unsent: false,
        has_attachments: false,
        thread_origin_guid: String::new(),
    };
    assert(row@ == local_message(chat_guid@, text@, guid@, now));
    match app.storage_mut().insert_message(&row) {
        Ok(()) => {},
        Err(e) => {
            return Err(AppError::Storage(e));
        },
    }
    app.notify(Event::MessageSent { chat_guid: String::from_str(chat_guid), message_guid: guid.clone() });
    Ok(guid)
}

/// Files a message written here under a fresh temporary guid, dated by the
/// system clock, and reports it sent. Refused where the chat does not exist.
pub fn send_message_local(app: &mut AppState, chat_guid: &str, text: &str) -> (r: Result<String, AppError>)
    requires
        old(app)@.store.wf(),
    ensures
        exists|u: Seq<u8>, now: i64|
            #![trigger local_message(chat_guid@, text@, "temp-"@ + hyphenated(u), now)]
            u.len() == 16 && is_v4(u) && (message_accepted(old(app)@.store, local_message(chat_guid@, text@, "temp-"@ + hyphenated(u), now)) ==> (
            r matches Ok(g) && g@ == "temp-"@ + hyphenated(u) && final(app)@ == after_local_send(
                old(app)@,
                chat_guid@,
                text@,
                "temp-"@ + hyphenated(u),
                now,
            ))) && (!message_accepted(old(app)@.store, local_message(chat_guid@, text@, "temp-"@ + hyphenated(u), now))
                ==> (r matches Err(AppError::Storage(StorageError::ForeignKey)) && final(app)@ == old(app)@)),
        final(app)@.store.wf(),
{
    let id = new_uuid_string();
    let guid = concat("temp-", id.as_str());
    let now = now_epoch();
    let r = send_message_with(app, chat_guid, text, guid, now);
    assert(local_message(chat_guid@, text@, guid@, now) == local_message(chat_guid@, text@, guid@, now));
    r
}

/// Marks the chat read and reports it changed.
pub fn mark_chat_read(app: &mut AppState, chat_guid: &str) -> (r: Result<(), AppError>)
    requires
        old(app)@.store.wf(),
    ensures
        r is Ok,
        exists|now: i64| #![trigger mark_read_model(old(app)@.store, chat_guid@, now)] final(app)@ == (AppView {
            store: mark_read_model(old(app)@.store, chat_guid@, now),
            events: old(app)@.events.push(EventView::ChatUpdated { chat_guid: chat_guid@ }),
            ..old(app)@
        }),
        final(app)@.store.wf(),
{
    match app.storage_mut().mark_chat_read(chat_guid) {
        Ok(()) => {},
        Err(e) => {
            return Err(AppError::Storage(e));
        },
    }
    app.notify(Event::ChatUpdated { chat_guid: String::from_str(chat_guid) });
    Ok(())
}

/// Pins or unpins the chat and reports it changed.
pub fn pin_chat(app: &mut AppState, chat_guid: &str, pinned: bool, order: i32) -> (r: Result<(), AppError>)
    requires
        old(app)@.store.wf(),
    ensures
        r is Ok,
        final(app)@ == (AppView {
            store: set_pin(old(app)@.store, chat_guid@, pinned, order),
            events: old(app)@.events.push(EventView::ChatUpdated { chat_guid: chat_guid@ }),
            ..old(app)@
        }),
        final(app)@.store.wf(),
{
    match app.storage_mut().set_chat_pin(chat_guid, pinned, order) {
        Ok(()) => {},
        Err(e) => {
            return Err(AppError::Storage(e));
        },
    }
    app.notify(Event::ChatUpdated { chat_guid: String::from_str(chat_guid) });
    Ok(())
}

/// Archives or restores the chat and reports it changed.
pub fn archive_chat(app: &mut AppState, chat_guid: &str, archived: bool) -> (r: Result<(), AppError>)
    requires
        old(app)@.store.wf(),
    ensures
        r is Ok,
        final(app)@ == (AppView {
            store: set_archived(old(app)@.store, chat_guid@, archived),
            events: old(app)@.events.push(EventView::ChatUpdated { chat_guid: chat_guid@ }),
            ..old(app)@
        }),
        final(app)@.store.wf(),
{
    match app.storage_mut().set_chat_archived(chat_guid, archived) {
        Ok(()) => {},
        Err(e) => {
            return Err(AppError::Storage(e));
        },
    }
    app.notify(Event::ChatUpdated { chat_guid: String::from_str(chat_guid) });
    Ok(())
}

/// The warning reported when a request to the protocol core is turned down.
pub fn stub_warning(what: &str, e: &IntegrationError) -> (r: Event)
    ensures
        r@ == EventView::Warn(what@ + " stub: "@ + e.message@),
{
    let mut t = String::from_str(what);
    t.append(" stub: ");
    t.append(e.message.as_str());
    Event::Warn(t)
}

/// Files a reaction of this client to a message. Refused where the message
/// does not exist.
pub fn tapback_local(app: &mut AppState, message_guid: &str, reaction: &str) -> (r: Result<(), AppError>)
    requires
        old(app)@.store.wf(),
    ensures
        old(app)@.store.has_message(message_guid@) ==> (r is Ok && exists|now: i64| #![trigger add_reaction(old(app)@.store, message_guid@, None, true, reaction@, now)] final(app)@ == (AppView {
            store: add_reaction(old(app)@.store, message_guid@, None, true, reaction@, now),
            ..old(app)@
        })),
        !old(app)@.store.has_message(message_guid@) ==> (r matches Err(AppError::Storage(StorageError::ForeignKey))
            && final(app)@ == old(app)@),
        final(app)@.store.wf(),
{
    match app.storage_mut().add_reaction(message_guid, None, true, reaction) {
        Ok(()) => Ok(()),
        Err(e) => Err(AppError::Storage(e)),
    }
}

/// Replaces a message's text, dated by the system clock.
pub fn edit_message_local(app: &mut AppState, message_guid: &str, new_text: &str) -> (r: Result<(), AppError>)
    requires
        old(app)@.store.wf(),
    ensures
        r is Ok,
        exists|now: i64| #![trigger edit_message(old(app)@.store, message_guid@, new_text@, now)] final(app)@ == (AppView {
            store: edit_message(old(app)@.store, message_guid@, new_text@, now),
            ..old(app)@
        }),
        final(app)@.store.wf(),
{
    match app.storage_mut().edit_message(message_guid, new_text) {
        Ok(()) => Ok(()),
        Err(e) => Err(AppError::Storage(e)),
    }
}

/// Marks a message unsent and clears its text.
pub fn unsend_message_local(app: &mut AppState, message_guid: &str) -> (r: Result<(), AppError>)
    requires
        old(app)@.store.wf(),
    ensures
        r is Ok,
        final(app)@ == (AppView { store: unsend_message(old(app)@.store, message_guid@), ..old(app)@ }),
        final(app)@.store.wf(),
{
    match app.storage_mut().unsend_message(message_guid) {
        Ok(()) => Ok(()),
        Err(e) => Err(AppError::Storage(e)),
    }
}

/// Starts signing in: both the Apple ID and the password are needed; the
/// account is then being authenticated.
pub fn start_apple_id_auth(app: &mut AppState, apple_id: &str, password: &str) -> (r: Result<(), AppError>)
    requires
        old(app)@.store.wf(),
    ensures
        (apple_id@.len() == 0 || password@.len() == 0) ==> (r matches Err(AppError::MissingCredentials)
            && final(app)@ == old(app)@),
        (apple_id@.len() > 0 && password@.len() > 0) ==> (r is Ok && final(app)@ == with_auth(
            old(app)@,
            AuthStateView::AuthenticatingAccount,
        )),
        final(app)@.store.wf(),
{
    if apple_id.is_empty() || password.is_empty() {
        return Err(AppError::MissingCredentials);
    }
    app.set_auth(AuthState::AuthenticatingAccount);
    Ok(())
}

/// Records how signing in ended: ready, or failed with the reason given.
pub fn finish_apple_id_auth(app: &mut AppState, outcome: Result<(), String>)
    requires
        old(app)@.store.wf(),
    ensures
        final(app)@ == with_auth(old(app)@, match outcome {
            Ok(()) => AuthStateView::Ready,
            Err(msg) => AuthStateView::Errored(msg@),
        }),
        final(app)@.store.wf(),
{
    match outcome {
        Ok(()) => app.set_auth(AuthState::Ready),
        Err(msg) => app.set_auth(AuthState::Errored(msg)),
    }
}

/// Checks a pairing request: the code, without surrounding white space,
/// must not be empty; a token that is empty once trimmed is no token.
pub fn pairing_request(code: &str, beeper_token: &str) -> (r: Result<(String, Option<String>), AppError>)
    ensures
        trim_seq(code@).len() == 0 ==> r matches Err(AppError::MissingPairingCode),
        trim_seq(code@).len() > 0 ==> (r matches Ok((c, t)) && c@ == trim_seq(code@) && match t {
            Some(t) => trim_seq(beeper_token@).len() > 0 && t@ == trim_seq(beeper_token@),
            None => trim_seq(beeper_token@).len() == 0,
        }),
{
    let c = trim(code);
    if c.as_str().unicode_len() == 0 {
        return Err(AppError::MissingPairingCode);
    }
    let t = trim(beeper_token);
    let token = if t.as_str().unicode_len() == 0 {
        None
    } else {
        Some(t)
    };
    Ok((c, token))
}

/// Takes up the configuration of a new pairing: the account then needs
/// credentials, and the pairing is reported.
pub fn finish_pairing(app: &mut AppState, cfg: RelayConfig)
    requires
        old(app)@.store.wf(),
    ensures
        final(app)@ == ({
            let a = with_auth(AppView { config: Some(cfg@), ..old(app)@ }, AuthStateView::NeedsCredentials);
            AppView { events: a.events.push(EventView::Info("paired with relay; enter Apple ID next"@)), ..a }
        }),
        final(app)@.store.wf(),
{
    let _ = app.persist_os_config(cfg);
    app.set_auth(AuthState::NeedsCredentials);
    app.notify(Event::Info(String::from_str("paired with relay; enter Apple ID next")));
}

/// Forgets the pairing: the account then needs pairing, and the change is reported.
pub fn clear_pairing(app: &mut AppState) -> (r: Result<(), AppError>)
    requires
        old(app)@.store.wf(),
    ensures
        r is Ok,
        final(app)@ == ({
            let a = with_auth(AppView { config: None, ..old(app)@ }, AuthStateView::NeedsHardwarePairing);
            AppView { events: a.events.push(EventView::Info("cleared relay pairing"@)), ..a }
        }),
        final(app)@.store.wf(),
{
    match app.clear_os_config() {
        Ok(()) => {},
        Err(e) => {
            return Err(AppError::Storage(e));
        },
    }
    app.set_auth(AuthState::NeedsHardwarePairing);
    app.notify(Event::Info(String::from_str("cleared relay pairing")));
    Ok(())
}

/// Starting a FaceTime call is not wired to the protocol core yet: refused.
pub fn start_facetime_call(app: &AppState, address: &str) -> (r: Result<String, AppError>)
    ensures
        r matches Err(AppError::Integration(e)) && e.message@
            == "start_facetime: not yet wired \u{2014} FaceTime path in api.rs"@,
{
    match integration::start_facetime(address) {
        Ok(id) => Ok(id),
        Err(e) => Err(AppError::Integration(e)),
    }
}

/// Takes the reported events, oldest first, as the interface receives them.
pub fn poll_events(app: &mut AppState) -> (r: Vec<EventDto>)
    ensures
        views(r@) == old(app)@.events.map_values(|e: EventView| event_dto(e)),
        final(app)@ == (AppView { events: Seq::empty(), ..old(app)@ }),
{
    let evs = app.drain_events();
    let ghost ev = views(evs@);
    let mut evs = evs;
    let mut out: Vec<EventDto> = Vec::new();
    let n = evs.len();
    let mut i: usize = 0;
    while evs.len() > 0
        invariant
            ev.len() == n,
            i + evs@.len() == n,
            views(evs@) == ev.skip(i as int),
            views(out@) == ev.take(i as int).map_values(|e: EventView| event_dto(e)),
        decreases evs@.len(),
    {
        let ghost before = evs@;
        let e = evs.remove(0);
        let d = event_to_dto(e);
        proof {
            assert(ev[i as int] == e@) by {
                assert(views(before)[0] == ev.skip(i as int)[0]);
            }
            assert forall|j: int| 0 <= j < evs@.len() implies #[trigger] views(evs@)[j] == ev.skip(i + 1)[j] by {
                assert(evs@[j] == before[j + 1]);
                assert(views(before)[j + 1] == ev.skip(i as int)[j + 1]);
            }
            assert(views(evs@) =~= ev.skip(i + 1));
            assert(views(out@.push(d)) =~= views(out@).push(d@));
            assert(ev.take(i + 1).map_values(|e: EventView| event_dto(e)) =~= ev.take(i as int).map_values(
                |e: EventView| event_dto(e),
            ).push(event_dto(ev[i as int])));
        }
        out.push(d);
        i = i + 1;
    }
    assert(ev.take(n as int) =~= ev);
    out
}

/// Files the sample conversations where the store holds no chat yet.
pub fn seed_demo(app: &mut AppState) -> (r: Result<(), AppError>)
    requires
        old(app)@.store.wf(),
    ensures
        old(app)@.store.chats.len() > 0 ==> r is Ok && final(app)@ == old(app)@,
        exists|now: i64|
            #![trigger seed_demo_model(old(app)@.store, now)]
            final(app)@ == (AppView { store: seed_demo_model(old(app)@.store, now), ..old(app)@ })
                && match seed_demo_result(old(app)@.store, now) {
                Ok(()) => r is Ok,
                Err(e) => r matches Err(AppError::Storage(f)) && f == e,
            },
        final(app)@.store.wf(),
{
    match app.storage_mut().seed_demo_data() {
        Ok(()) => Ok(()),
        Err(e) => Err(AppError::Storage(e)),
    }
}

} // verus!
