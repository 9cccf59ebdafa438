//! The local message store: chats, handles, memberships, messages,
//! reactions and a key-value table, with the queries the client runs on them.

use vstd::prelude::*;
use vstd::string::*;

use crate::rank::{Ranked, views, sort_ranked};
use crate::store_model::{
    Query, lemma_dedup, lemma_filter_props,
    ChatRowView, MessageRowView, HandleRowView, ChatModel, HandleModel,
    MemberModel, MessageModel, ReactionModel, KvModel, StoreModel, StorageError, empty_store,
    kv_value, kv_set, upsert_handle_result,
    upsert_handle, handle_row, list_handles, lemma_keys_kept, upsert_chat, set_pin, set_archived, participants_accepted, set_participants, dedup, message_accepted, insert_message, mark_chat_read, read_message, edit_message, unsend_message, add_reaction, lemma_insert_message_wf, lemma_message_update_wf,
    lemma_chat_update_wf, lemma_add_reaction_wf, lemma_kv_set_wf, lemma_keeps_refs,
    lemma_keeps_refs_trans, lemma_upsert_handle_refs, lemma_upsert_handle_wf, lemma_upsert_chat_refs,
    lemma_small_steps_refs, seed_handle_step, seed_handles, seed_chats, seed_message,
    seed_messages, seed_demo, seed_demo_result, has_member, lemma_load_chat_wf,
    lemma_load_handle_wf, lemma_handle_sequence_wf, lemma_load_member_wf, lemma_load_message_wf,
    lemma_load_reaction_wf, lemma_load_kv_wf, load_chat_step, load_handle_step, note_sequence,
    load_member_step, load_message_step, load_reaction_step, load_setting_step,
};
use crate::clock::now_epoch;
use crate::text::{concat, decimal_string, str_eq, str_le, text_le, lemma_text_le_total, lemma_text_le_trans, lemma_text_le_antisym};

verus! {

/// A chat as listed.
#[derive(Clone, Debug)]
pub struct ChatRow {
    pub guid: String,
    pub title: String,
    pub is_imessage: bool,
    pub is_group: bool,
    pub is_archived: bool,
    pub is_pinned: bool,
    pub pin_order: i32,
    pub unread_count: i32,
    pub last_message_date: i64,
    pub last_message_preview: String,
    pub participant_summary: String,
}

/// A message as filed and as listed, with its sender's address and name.
#[derive(Clone, Debug)]
pub struct MessageRow {
    pub guid: String,
    pub chat_guid: String,
    pub handle_id: Option<i64>,
    pub sender_address: String,
    pub sender_display_name: String,
    pub text: String,
    pub subject: String,
    pub is_from_me: bool,
    pub date: i64,
    pub date_read: i64,
    pub date_edited: i64,
    pub is_unsent: bool,
    pub has_attachments: bool,
    pub thread_origin_guid: String,
}

/// An address on a service, with the name shown for it.
#[derive(Clone, Debug)]
pub struct HandleRow {
    pub id: i64,
    pub address: String,
    pub service: String,
    pub display_name: String,
}

impl View for ChatRow {
    type V = ChatRowView;

    open spec fn view(&self) -> ChatRowView {
        ChatRowView {
            guid: self.guid@,
            title: self.title@,
            is_imessage: self.is_imessage,
            is_group: self.is_group,
            is_archived: self.is_archived,
            is_pinned: self.is_pinned,
            pin_order: self.pin_order,
            unread_count: self.unread_count,
            last_message_date: self.last_message_date,
            last_message_preview: self.last_message_preview@,
            participant_summary: self.participant_summary@,
        }
    }
}

impl View for MessageRow {
    type V = MessageRowView;

    open spec fn view(&self) -> MessageRowView {
        MessageRowView {
            guid: self.guid@,
            chat_guid: self.chat_guid@,
            handle_id: self.handle_id,
            sender_address: self.sender_address@,
            sender_display_name: self.sender_display_name@,
            text: self.text@,
            subject: self.subject@,
            is_from_me: self.is_from_me,
            date: self.date,
            date_read: self.date_read,
            date_edited: self.date_edited,
            is_unsent: self.is_unsent,
            has_attachments: self.has_attachments,
            thread_origin_guid: self.thread_origin_guid@,
        }
    }
}

impl View for HandleRow {
    type V = HandleRowView;

    open spec fn view(&self) -> HandleRowView {
        HandleRowView {
            id: self.id,
            address: self.address@,
            service: self.service@,
            display_name: self.display_name@,
        }
    }
}

/// `a` comes strictly before `b` in text order.
pub open spec fn text_lt(a: Seq<char>, b: Seq<char>) -> bool {
    !text_le(b, a)
}

impl Ranked for HandleRow {
    /// By display name, then by address.
    open spec fn before(a: HandleRowView, b: HandleRowView) -> bool {
        ||| text_lt(a.display_name, b.display_name)
        ||| a.display_name == b.display_name && text_le(a.address, b.address)
    }

    proof fn lemma_before_total(a: HandleRowView, b: HandleRowView) {
        lemma_text_le_total(a.address, b.address);
        if text_le(a.display_name, b.display_name) && text_le(b.display_name, a.display_name) {
            lemma_text_le_antisym(a.display_name, b.display_name);
        }
    }

    proof fn lemma_before_trans(a: HandleRowView, b: HandleRowView, c: HandleRowView) {
        lemma_text_le_total(a.display_name, b.display_name);
        lemma_text_le_total(b.display_name, c.display_name);
        lemma_text_le_total(a.display_name, c.display_name);
        if text_le(c.display_name, a.display_name) {
            if text_le(a.display_name, b.display_name) {
                lemma_text_le_trans(c.display_name, a.display_name, b.display_name);
            }
            if text_le(b.display_name, c.display_name) {
                lemma_text_le_trans(b.display_name, c.display_name, a.display_name);
            }
        }
        if text_le(a.address, b.address) && text_le(b.address, c.address) {
            lemma_text_le_trans(a.address, b.address, c.address);
        }
    }

    fn before_exec(&self, other: &Self) -> (r: bool) {
        if !str_le(other.display_name.as_str(), self.display_name.as_str()) {
            true
        } else if str_eq(self.display_name.as_str(), other.display_name.as_str()) {
            str_le(self.address.as_str(), other.address.as_str())
        } else {
            false
        }
    }
}

/// A row of the chats table.
pub struct ChatRecord {
    pub guid: String,
    pub title: String,
    pub is_imessage: bool,
    pub is_group: bool,
    pub is_archived: bool,
    pub is_pinned: bool,
    pub pin_order: i32,
    pub unread_count: i64,
    pub last_message_date: i64,
    pub last_message_preview: String,
    pub created_at: i64,
}

/// A row of the handles table.
pub struct HandleRecord {
    pub id: i64,
    pub address: String,
    pub service: String,
    pub display_name: String,
    pub created_at: i64,
}

/// A row of the chat membership table.
pub struct MemberRecord {
    pub chat_guid: String,
    pub handle_id: i64,
}

/// A row of the messages table.
pub struct MessageRecord {
    pub guid: String,
    pub chat_guid: String,
    pub handle_id: Option<i64>,
    pub text: String,
    pub subject: String,
    pub is_from_me: bool,
    pub date: i64,
    pub date_read: i64,
    pub date_edited: i64,
    pub is_unsent: bool,
    pub has_attachments: bool,
    pub thread_origin_guid: String,
}

/// A row of the reactions table.
pub struct ReactionRecord {
    pub message_guid: String,
    pub handle_id: Option<i64>,
    pub is_from_me: bool,
    pub reaction_type: String,
    pub timestamp: i64,
}

/// A row of the key-value table.
pub struct KvRecord {
    pub key: String,
    pub value: String,
}

impl View for ChatRecord {
    type V = ChatModel;

    open spec fn view(&self) -> ChatModel {
        ChatModel {
            guid: self.guid@,
            title: self.title@,
            is_imessage: self.is_imessage,
            is_group: self.is_group,
            is_archived: self.is_archived,
            is_pinned: self.is_pinned,
            pin_order: self.pin_order,
            unread_count: self.unread_count,
            last_message_date: self.last_message_date,
            last_message_preview: self.last_message_preview@,
            created_at: self.created_at,
        }
    }
}

impl View for HandleRecord {
    type V = HandleModel;

    open spec fn view(&self) -> HandleModel {
        HandleModel {
            id: self.id,
            address: self.address@,
            service: self.service@,
            display_name: self.display_name@,
            created_at: self.created_at,
        }
    }
}

impl View for MemberRecord {
    type V = MemberModel;

    open spec fn view(&self) -> MemberModel {
        MemberModel { chat_guid: self.chat_guid@, handle_id: self.handle_id }
    }
}

impl View for MessageRecord {
    type V = MessageModel;

    open spec fn view(&self) -> MessageModel {
        MessageModel {
            guid: self.guid@,
            chat_guid: self.chat_guid@,
            handle_id: self.handle_id,
            text: self.text@,
            subject: self.subject@,
            is_from_me: self.is_from_me,
            date: self.date,
            date_read: self.date_read,
            date_edited: self.date_edited,
            is_unsent: self.is_unsent,
            has_attachments: self.has_attachments,
            thread_origin_guid: self.thread_origin_guid@,
        }
    }
}

impl View for ReactionRecord {
    type V = ReactionModel;

    open spec fn view(&self) -> ReactionModel {
        ReactionModel {
            message_guid: self.message_guid@,
            handle_id: self.handle_id,
            is_from_me: self.is_from_me,
            reaction_type: self.reaction_type@,
            timestamp: self.timestamp,
        }
    }
}

impl View for KvRecord {
    type V = KvModel;

    open spec fn view(&self) -> KvModel {
        KvModel { key: self.key@, value: self.value@ }
    }
}

/// The message store. Its tables are held in row order; `wf` of its view
/// holds of every store that the functions below hand out.
pub struct Storage {
    chats: Vec<ChatRecord>,
    handles: Vec<HandleRecord>,
    members: Vec<MemberRecord>,
    messages: Vec<MessageRecord>,
    reactions: Vec<ReactionRecord>,
    kv: Vec<KvRecord>,
    last_handle_id: i64,
}

impl View for Storage {
    type V = StoreModel;

    closed spec fn view(&self) -> StoreModel {
        StoreModel {
            chats: views(self.chats@),
            handles: views(self.handles@),
            members: views(self.members@),
            messages: views(self.messages@),
            reactions: views(self.reactions@),
            kv: views(self.kv@),
            last_handle_id: self.last_handle_id,
        }
    }
}

proof fn lemma_views_update<T: View>(s: Seq<T>, i: int, x: T)
    requires
        0 <= i < s.len(),
    ensures
        views(s.update(i, x)) == views(s).update(i, x@),
{
    assert(views(s.update(i, x)) =~= views(s).update(i, x@));
}

proof fn lemma_views_push<T: View>(s: Seq<T>, x: T)
    ensures
        views(s.push(x)) == views(s).push(x@),
{
    assert(views(s.push(x)) =~= views(s).push(x@));
}

proof fn lemma_views_remove<T: View>(s: Seq<T>, i: int)
    requires
        0 <= i < s.len(),
    ensures
        views(s.remove(i)) == views(s).remove(i),
{
    assert(views(s.remove(i)) =~= views(s).remove(i));
}

impl ChatRecord {
    fn copy(&self) -> (r: ChatRecord)
        ensures
            r@ == self@,
    {
        ChatRecord {
            guid: self.guid.clone(),
            title: self.title.clone(),
            is_imessage: self.is_imessage,
            is_group: self.is_group,
            is_archived: self.is_archived,
            is_pinned: self.is_pinned,
            pin_order: self.pin_order,
            unread_count: self.unread_count,
            last_message_date: self.last_message_date,
            last_message_preview: self.last_message_preview.clone(),
            created_at: self.created_at,
        }
    }
}

proof fn lemma_take_all<A>(s: Seq<A>)
    ensures
        s.take(s.len() as int) == s,
{
    assert(s.take(s.len() as int) =~= s);
}

impl MemberRecord {
    fn copy(&self) -> (r: MemberRecord)
        ensures
            r@ == self@,
    {
        MemberRecord { chat_guid: self.chat_guid.clone(), handle_id: self.handle_id }
    }
}

impl MessageRecord {
    fn copy(&self) -> (r: MessageRecord)
        ensures
            r@ == self@,
    {
        MessageRecord {
            guid: self.guid.clone(),
            chat_guid: self.chat_guid.clone(),
            handle_id: self.handle_id,
            text: self.text.clone(),
            subject: self.subject.clone(),
            is_from_me: self.is_from_me,
            date: self.date,
            date_read: self.date_read,
            date_edited: self.date_edited,
            is_unsent: self.is_unsent,
            has_attachments: self.has_attachments,
            thread_origin_guid: self.thread_origin_guid.clone(),
        }
    }
}

impl ReactionRecord {
    fn copy(&self) -> (r: ReactionRecord)
        ensures
            r@ == self@,
    {
        ReactionRecord {
            message_guid: self.message_guid.clone(),
            handle_id: self.handle_id,
            is_from_me: self.is_from_me,
            reaction_type: self.reaction_type.clone(),
            timestamp: self.timestamp,
        }
    }
}

fn contains_id(v: &Vec<i64>, x: i64) -> (b: bool)
    ensures
        b == v@.contains(x),
{
    let mut i: usize = 0;
    while i < v.len()
        invariant
            i <= v@.len(),
            forall|j: int| 0 <= j < i ==> v@[j] != x,
        decreases v@.len() - i,
    {
        if v[i] == x {
            assert(v@[i as int] == x);
            return true;
        }
        i = i + 1;
    }
    false
}

impl Storage {
    /// An empty store.
    pub fn open_in_memory() -> (r: Result<Storage, StorageError>)
        ensures
            r matches Ok(s) && s@ == empty_store(),
    {
        let s = Storage {
            chats: Vec::new(),
            handles: Vec::new(),
            members: Vec::new(),
            messages: Vec::new(),
            reactions: Vec::new(),
            kv: Vec::new(),
            last_handle_id: 0,
        };
        assert(s@ =~= empty_store()) by {
            assert(s@.chats =~= Seq::<ChatModel>::empty());
            assert(s@.handles =~= Seq::<HandleModel>::empty());
            assert(s@.members =~= Seq::<MemberModel>::empty());
            assert(s@.messages =~= Seq::<MessageModel>::empty());
            assert(s@.reactions =~= Seq::<ReactionModel>::empty());
            assert(s@.kv =~= Seq::<KvModel>::empty());
        }
        Ok(s)
    }

    fn find_kv(&self, key: &str) -> (r: Option<usize>)
        requires
            self@.wf(),
        ensures
            r matches Some(i) ==> self@.kv_index(key@) == i && i < self@.kv.len()
                && self@.kv[i as int].key == key@,
            r is None ==> self@.kv_index(key@) == -1 && forall|j: int|
                0 <= j < self@.kv.len() ==> #[trigger] self@.kv[j].key != key@,
    {
        let ghost m = self@;
        let mut i: usize = 0;
        while i < self.kv.len()
            invariant
                m == self@,
                m.wf(),
                i <= self.kv@.len(),
                forall|j: int| 0 <= j < i ==> #[trigger] m.kv[j].key != key@,
            decreases self.kv@.len() - i,
        {
            if str_eq(self.kv[i].key.as_str(), key) {
                assert(m.kv[i as int].key == key@);
                return Some(i);
            }
            i = i + 1;
        }
        None
    }

    /// The value stored under `key`.
    pub fn kv_get(&self, key: &str) -> (r: Result<Option<String>, StorageError>)
        requires
            self@.wf(),
        ensures
            r matches Ok(o) && match o {
                Some(v) => kv_value(self@, key@) == Some(v@),
                None => kv_value(self@, key@) is None,
            },
    {
        match self.find_kv(key) {
            Some(i) => Ok(Some(self.kv[i].value.clone())),
            None => Ok(None),
        }
    }

    /// Stores `value` under `key`, in place of what was there.
    pub fn kv_set(&mut self, key: &str, value: &str) -> (r: Result<(), StorageError>)
        requires
            old(self)@.wf(),
        ensures
            r is Ok,
            final(self)@ == kv_set(old(self)@, key@, value@),
            final(self)@.wf(),
    {
        let rec = KvRecord { key: String::from_str(key), value: String::from_str(value) };
        match self.find_kv(key) {
            Some(i) => {
                proof {
                    lemma_views_update(self.kv@, i as int, rec);
                }
                self.kv.set(i, rec);
            },
            None => {
                proof {
                    lemma_views_push(self.kv@, rec);
                }
                self.kv.push(rec);
            },
        }
        proof {
            lemma_kv_set_wf(old(self)@, key@, value@);
        }
        Ok(())
    }

    fn find_handle_key(&self, address: &str, service: &str) -> (r: Option<usize>)
        requires
            self@.wf(),
        ensures
            r matches Some(i) ==> self@.handle_key_index(address@, service@) == i && i
                < self@.handles.len() && self@.handles[i as int].address == address@
                && self@.handles[i as int].service == service@,
            r is None ==> self@.handle_key_index(address@, service@) == -1 && forall|j: int|
                0 <= j < self@.handles.len() ==> !(#[trigger] self@.handles[j].address == address@
                    && self@.handles[j].service == service@),
    {
        let ghost m = self@;
        let mut i: usize = 0;
        while i < self.handles.len()
            invariant
                m == self@,
                m.wf(),
                i <= self.handles@.len(),
                forall|j: int|
                    0 <= j < i ==> !(#[trigger] m.handles[j].address == address@
                        && m.handles[j].service == service@),
            decreases self.handles@.len() - i,
        {
            if str_eq(self.handles[i].address.as_str(), address) && str_eq(
                self.handles[i].service.as_str(),
                service,
            ) {
                assert(m.handles[i as int].address == address@ && m.handles[i as int].service == service@);
                return Some(i);
            }
            i = i + 1;
        }
        None
    }

    fn find_handle(&self, id: i64) -> (r: Option<usize>)
        requires
            self@.wf(),
        ensures
            r matches Some(i) ==> self@.handle_index(id) == i && i < self@.handles.len()
                && self@.handles[i as int].id == id,
            r is None ==> self@.handle_index(id) == -1 && !self@.has_handle(id),
    {
        let ghost m = self@;
        let mut i: usize = 0;
        while i < self.handles.len()
            invariant
                m == self@,
                m.wf(),
                i <= self.handles@.len(),
                forall|j: int| 0 <= j < i ==> #[trigger] m.handles[j].id != id,
            decreases self.handles@.len() - i,
        {
            if self.handles[i].id == id {
                assert(m.handles[i as int].id == id);
                return Some(i);
            }
            i = i + 1;
        }
        None
    }

    /// Files the handle with this address and service under `display_name`, as
    /// of `now`, and returns its id: a new one is appended under the next id.
    /// The handle sequence moves on by one either way.
    #[verifier::spinoff_prover]
    pub fn upsert_handle_at(&mut self, address: &str, service: &str, display_name: &str, now: i64) -> (r: Result<i64, StorageError>)
        requires
            old(self)@.wf(),
        ensures
            r == upsert_handle_result(old(self)@, address@, service@),
            final(self)@ == upsert_handle(old(self)@, address@, service@, display_name@, now),
            final(self)@.wf(),
    {
        let ghost m = self@;
        if self.last_handle_id == i64::MAX {
            return Err(StorageError::Full);
        }
        let id = self.last_handle_id + 1;
        match self.find_handle_key(address, service) {
            Some(i) => {
                let found = self.handles[i].id;
                let rec = HandleRecord {
                    id: found,
                    address: self.handles[i].address.clone(),
                    service: self.handles[i].service.clone(),
                    display_name: String::from_str(display_name),
                    created_at: self.handles[i].created_at,
                };
                proof {
                    lemma_views_update(self.handles@, i as int, rec);
                }
                self.handles.set(i, rec);
                self.last_handle_id = id;
                proof {
                    lemma_upsert_handle_wf(m, address@, service@, display_name@, now);
                    assert(self@ =~= upsert_handle(m, address@, service@, display_name@, now));
                }
                Ok(found)
            },
            None => {
                let rec = HandleRecord {
                    id,
                    address: String::from_str(address),
                    service: String::from_str(service),
                    display_name: String::from_str(display_name),
                    created_at: now,
                };
                proof {
                    lemma_views_push(self.handles@, rec);
                }
                self.handles.push(rec);
                self.last_handle_id = id;
                proof {
                    lemma_upsert_handle_wf(m, address@, service@, display_name@, now);
                    assert(self@ =~= upsert_handle(m, address@, service@, display_name@, now));
                }
                Ok(id)
            },
        }
    }

    /// Files the handle with this address and service under `display_name`,
    /// as of the system clock, and returns its id.
    pub fn upsert_handle(&mut self, address: &str, service: &str, display_name: &str) -> (r: Result<i64, StorageError>)
        requires
            old(self)@.wf(),
        ensures
            r == upsert_handle_result(old(self)@, address@, service@),
            exists|now: i64| final(self)@ == upsert_handle(old(self)@, address@, service@, display_name@, now),
            final(self)@.wf(),
    {
        let now = now_epoch();
        self.upsert_handle_at(address, service, display_name, now)
    }

    /// All handles, ordered by display name, then by address.
    pub fn list_handles(&self) -> (r: Result<Vec<HandleRow>, StorageError>)
        requires
            self@.wf(),
        ensures
            r matches Ok(v) && views(v@) == list_handles(self@),
    {
        let ghost m = self@;
        let mut rows: Vec<HandleRow> = Vec::new();
        let mut i: usize = 0;
        while i < self.handles.len()
            invariant
                m == self@,
                i <= self.handles@.len(),
                views(rows@) == m.handles.take(i as int).map_values(|h: HandleModel| handle_row(h)),
            decreases self.handles@.len() - i,
        {
            let h = &self.handles[i];
            let row = HandleRow {
                id: h.id,
                address: h.address.clone(),
                service: h.service.clone(),
                display_name: h.display_name.clone(),
            };
            proof {
                lemma_views_push(rows@, row);
                assert(m.handles.take(i + 1).map_values(|h: HandleModel| handle_row(h))
                    =~= m.handles.take(i as int).map_values(|h: HandleModel| handle_row(h)).push(handle_row(m.handles[i as int])));
            }
            rows.push(row);
            i = i + 1;
        }
        assert(m.handles.take(m.handles.len() as int) =~= m.handles);
        Ok(sort_ranked(rows))
    }

    fn find_chat(&self, guid: &str) -> (r: Option<usize>)
        requires
            self@.wf(),
        ensures
            r matches Some(i) ==> self@.chat_index(guid@) == i && i < self@.chats.len()
                && self@.chats[i as int].guid == guid@ && self@.has_chat(guid@),
            r is None ==> self@.chat_index(guid@) == -1 && !self@.has_chat(guid@),
    {
        let ghost m = self@;
        let mut i: usize = 0;
        while i < self.chats.len()
            invariant
                m == self@,
                m.wf(),
                i <= self.chats@.len(),
                forall|j: int| 0 <= j < i ==> #[trigger] m.chats[j].guid != guid@,
            decreases self.chats@.len() - i,
        {
            if str_eq(self.chats[i].guid.as_str(), guid) {
                assert(m.chats[i as int].guid == guid@);
                return Some(i);
            }
            i = i + 1;
        }
        None
    }

    /// Replaces chat `i` by `rec`, which keeps its guid.
    fn replace_chat(&mut self, i: usize, rec: ChatRecord)
        requires
            old(self)@.wf(),
            i < old(self)@.chats.len(),
            rec@.guid == old(self)@.chats[i as int].guid,
        ensures
            final(self)@ == (StoreModel { chats: old(self)@.chats.update(i as int, rec@), ..old(self)@ }),
            final(self)@.wf(),
    {
        let ghost m = self@;
        proof {
            lemma_views_update(self.chats@, i as int, rec);
        }
        self.chats.set(i, rec);
        proof {
            lemma_chat_update_wf(m, i as int, rec@);
        }
    }

    /// Files the chat `guid` with this title and kinds, as of `now`: a new
    /// chat is appended, unpinned, unarchived, with nothing unread.
    pub fn upsert_chat_at(&mut self, guid: &str, title: &str, is_imessage: bool, is_group: bool, now: i64) -> (r: Result<(), StorageError>)
        requires
            old(self)@.wf(),
        ensures
            r is Ok,
            final(self)@ == upsert_chat(old(self)@, guid@, title@, is_imessage, is_group, now),
            final(self)@.wf(),
    {
        let ghost m = self@;
        match self.find_chat(guid) {
            Some(i) => {
                let mut rec = self.chats[i].copy();
                rec.title = String::from_str(title);
                rec.is_imessage = is_imessage;
                rec.is_group = is_group;
                self.replace_chat(i, rec);
            },
            None => {
                let rec = ChatRecord {
                    guid: String::from_str(guid),
                    title: String::from_str(title),
                    is_imessage,
                    is_group,
                    is_archived: false,
                    is_pinned: false,
                    pin_order: 0,
                    unread_count: 0,
                    last_message_date: 0,
                    last_message_preview: String::new(),
                    created_at: now,
                };
                proof {
                    lemma_views_push(self.chats@, rec);
                }
                self.chats.push(rec);
                proof {
                    lemma_keys_kept(m, self@);
                }
            },
        }
        Ok(())
    }

    /// Files the chat `guid` with this title and kinds, as of the system clock.
    pub fn upsert_chat(&mut self, guid: &str, title: &str, is_imessage: bool, is_group: bool) -> (r: Result<(), StorageError>)
        requires
            old(self)@.wf(),
        ensures
            r is Ok,
            exists|now: i64| final(self)@ == upsert_chat(old(self)@, guid@, title@, is_imessage, is_group, now),
            final(self)@.wf(),
    {
        let now = now_epoch();
        self.upsert_chat_at(guid, title, is_imessage, is_group, now)
    }

    /// Pins or unpins the chat, with its place among the pinned ones.
    pub fn set_chat_pin(&mut self, chat_guid: &str, is_pinned: bool, order: i32) -> (r: Result<(), StorageError>)
        requires
            old(self)@.wf(),
        ensures
            r is Ok,
            final(self)@ == set_pin(old(self)@, chat_guid@, is_pinned, order),
            final(self)@.wf(),
    {
        match self.find_chat(chat_guid) {
            Some(i) => {
                let mut rec = self.chats[i].copy();
                rec.is_pinned = is_pinned;
                rec.pin_order = order;
                self.replace_chat(i, rec);
            },
            None => {},
        }
        Ok(())
    }

    /// Archives or restores the chat.
    pub fn set_chat_archived(&mut self, chat_guid: &str, is_archived: bool) -> (r: Result<(), StorageError>)
        requires
            old(self)@.wf(),
        ensures
            r is Ok,
            final(self)@ == set_archived(old(self)@, chat_guid@, is_archived),
            final(self)@.wf(),
    {
        match self.find_chat(chat_guid) {
            Some(i) => {
                let mut rec = self.chats[i].copy();
                rec.is_archived = is_archived;
                self.replace_chat(i, rec);
            },
            None => {},
        }
        Ok(())
    }

    /// The chat list, archived chats only where asked for. Its query runs
    /// its lines together (`last_message_previewFROM chatsORDER BY`), so the
    /// database engine refuses to prepare it and the call always fails.
    pub fn list_chats(&self, include_archived: bool) -> (r: Result<Vec<ChatRow>, StorageError>)
        ensures
            r matches Err(e) && e == StorageError::Syntax(
                if include_archived {
                    Query::AllChats
                } else {
                    Query::UnarchivedChats
                },
            ),
    {
        if include_archived {
            Err(StorageError::Syntax(Query::AllChats))
        } else {
            Err(StorageError::Syntax(Query::UnarchivedChats))
        }
    }

    /// Replaces the chat's members by the given handles, each once, in the
    /// given order. With handles given, the chat and each handle must exist:
    /// otherwise nothing changes and `ForeignKey` is returned.
    #[verifier::spinoff_prover]
    pub fn set_chat_participants(&mut self, chat_guid: &str, handle_ids: &[i64]) -> (r: Result<(), StorageError>)
        requires
            old(self)@.wf(),
        ensures
            r is Ok <==> participants_accepted(old(self)@, chat_guid@, handle_ids@),
            r matches Err(e) ==> e == StorageError::ForeignKey,
            final(self)@ == set_participants(old(self)@, chat_guid@, handle_ids@),
            final(self)@.wf(),
    {
        let ghost m = self@;
        let ghost ids = handle_ids@;
        if handle_ids.len() > 0 {
            if self.find_chat(chat_guid).is_none() {
                return Err(StorageError::ForeignKey);
            }
            let mut k: usize = 0;
            while k < handle_ids.len()
                invariant
                    m == self@,
                    m.wf(),
                    ids == handle_ids@,
                    k <= ids.len(),
                    forall|j: int| 0 <= j < k ==> m.has_handle(#[trigger] ids[j]),
                decreases ids.len() - k,
            {
                if self.find_handle(handle_ids[k]).is_none() {
                    return Err(StorageError::ForeignKey);
                }
                k = k + 1;
            }
        }
        assert(participants_accepted(m, chat_guid@, ids));
        let ghost pred = |x: MemberModel| x.chat_guid != chat_guid@;
        let ghost mk = |h: i64| MemberModel { chat_guid: chat_guid@, handle_id: h };
        let mut kept: Vec<MemberRecord> = Vec::new();
        let mut i: usize = 0;
        while i < self.members.len()
            invariant
                m == self@,
                m.wf(),
                ids == handle_ids@,
                participants_accepted(m, chat_guid@, ids),
                pred == (|x: MemberModel| x.chat_guid != chat_guid@),
                i <= self.members@.len(),
                views(kept@) == m.members.take(i as int).filter(pred),
            decreases self.members@.len() - i,
        {
            proof {
                let t = m.members.take(i as int);
                assert(m.members.take(i + 1) =~= t.push(m.members[i as int]));
                t.lemma_filter_push(m.members[i as int], pred);
            }
            if !str_eq(self.members[i].chat_guid.as_str(), chat_guid) {
                let rec = self.members[i].copy();
                proof {
                    lemma_views_push(kept@, rec);
                }
                kept.push(rec);
            }
            i = i + 1;
        }
        proof {
            lemma_take_all(m.members);
        }
        let ghost base = m.members.filter(pred);
        let mut added: Vec<i64> = Vec::new();
        let mut k: usize = 0;
        while k < handle_ids.len()
            invariant
                m == self@,
                m.wf(),
                ids == handle_ids@,
                participants_accepted(m, chat_guid@, ids),
                pred == (|x: MemberModel| x.chat_guid != chat_guid@),
                base == m.members.filter(pred),
                mk == (|h: i64| MemberModel { chat_guid: chat_guid@, handle_id: h }),
                k <= ids.len(),
                added@ == dedup(ids.take(k as int)),
                views(kept@) == base + added@.map_values(mk),
            decreases ids.len() - k,
        {
            let h = handle_ids[k];
            proof {
                assert(ids.take(k + 1).drop_last() =~= ids.take(k as int));
                assert(ids.take(k + 1).last() == h);
            }
            if !contains_id(&added, h) {
                let rec = MemberRecord { chat_guid: String::from_str(chat_guid), handle_id: h };
                proof {
                    lemma_views_push(kept@, rec);
                    assert(added@.push(h).map_values(mk) =~= added@.map_values(mk).push(mk(h)));
                }
                kept.push(rec);
                added.push(h);
            }
            k = k + 1;
        }
        proof {
            lemma_take_all(ids);
        }
        self.members = kept;
        proof {
            let d = dedup(ids);
            let dm = d.map_values(mk);
            lemma_dedup(ids);
            lemma_filter_props(m.members, pred);
            assert(m.members.no_duplicates());
            let nm = self@.members;
            assert(nm == base + dm);
            assert(self@ == (StoreModel { members: nm, ..m }));
            lemma_keys_kept(m, self@);
            assert forall|i: int| 0 <= i < nm.len() implies self@.has_chat(#[trigger] nm[i].chat_guid)
                && self@.has_handle(nm[i].handle_id) by {
                if i < base.len() {
                    assert(nm[i] == base[i]);
                    let j = choose|j: int| 0 <= j < m.members.len() && m.members[j] == base[i];
                    assert(m.has_chat(m.members[j].chat_guid));
                } else {
                    let q = i - base.len();
                    assert(nm[i] == dm[q]);
                    assert(d.contains(d[q]));
                    let j = choose|j: int| 0 <= j < ids.len() && ids[j] == d[q];
                    assert(m.has_handle(ids[j]));
                }
            }
            assert forall|i: int, j: int| 0 <= i < nm.len() && 0 <= j < nm.len() && i != j implies #[trigger] nm[i] != #[trigger] nm[j] by {
                if i < base.len() && j < base.len() {
                    assert(nm[i] == base[i] && nm[j] == base[j]);
                } else if i >= base.len() && j >= base.len() {
                    assert(nm[i] == dm[i - base.len()] && nm[j] == dm[j - base.len()]);
                    assert(d[i - base.len()] != d[j - base.len()]);
                } else if i < base.len() {
                    assert(nm[i] == base[i] && pred(base[i]));
                } else {
                    assert(nm[j] == base[j] && pred(base[j]));
                }
            }
            assert(self@.wf());
        }
        Ok(())
    }

    /// The names of a chat's participants. Its query runs its lines together
    /// (`chat_handles chJOIN handles`), so the database engine refuses to
    /// prepare it and the call always fails.
    pub fn participants_summary(&self, _chat_guid: &str) -> (r: Result<String, StorageError>)
        ensures
            r matches Err(e) && e == StorageError::Syntax(Query::ChatParticipants),
    {
        Err(StorageError::Syntax(Query::ChatParticipants))
    }

    fn find_message(&self, guid: &str) -> (r: Option<usize>)
        requires
            self@.wf(),
        ensures
            r matches Some(i) ==> self@.message_index(guid@) == i && i < self@.messages.len()
                && self@.messages[i as int].guid == guid@ && self@.has_message(guid@),
            r is None ==> self@.message_index(guid@) == -1 && !self@.has_message(guid@),
    {
        let ghost m = self@;
        let mut i: usize = 0;
        while i < self.messages.len()
            invariant
                m == self@,
                m.wf(),
                i <= self.messages@.len(),
                forall|j: int| 0 <= j < i ==> #[trigger] m.messages[j].guid != guid@,
            decreases self.messages@.len() - i,
        {
            if str_eq(self.messages[i].guid.as_str(), guid) {
                assert(m.messages[i as int].guid == guid@);
                return Some(i);
            }
            i = i + 1;
        }
        None
    }

    /// Files a message, in place of one with the same guid (whose reactions
    /// go with it). Its chat takes its date where later, its text as preview
    /// and, for a received message, one more unread. The chat, and the
    /// sender's handle where there is one, must exist: otherwise nothing
    /// changes and `ForeignKey` is returned.
    #[verifier::spinoff_prover]
    pub fn insert_message(&mut self, m: &MessageRow) -> (r: Result<(), StorageError>)
        requires
            old(self)@.wf(),
        ensures
            r is Ok <==> message_accepted(old(self)@, m@),
            r matches Err(e) ==> e == StorageError::ForeignKey,
            final(self)@ == insert_message(old(self)@, m@),
            final(self)@.wf(),
    {
        let ghost s0 = self@;
        let ci = match self.find_chat(m.chat_guid.as_str()) {
            Some(i) => i,
            None => {
                return Err(StorageError::ForeignKey);
            },
        };
        match m.handle_id {
            Some(h) => {
                if self.find_handle(h).is_none() {
                    return Err(StorageError::ForeignKey);
                }
            },
            None => {},
        }
        let prior = self.find_message(m.guid.as_str());
        let ghost rpred = |x: ReactionModel| x.message_guid != m.guid@;
        match prior {
            Some(oi) => {
                proof {
                    lemma_views_remove(self.messages@, oi as int);
                }
                self.messages.remove(oi);
                let mut kept: Vec<ReactionRecord> = Vec::new();
                let mut i: usize = 0;
                while i < self.reactions.len()
                    invariant
                        self.reactions@ == old(self).reactions@,
                        s0.reactions == views(self.reactions@),
                        rpred == (|x: ReactionModel| x.message_guid != m.guid@),
                        i <= self.reactions@.len(),
                        views(kept@) == s0.reactions.take(i as int).filter(rpred),
                    decreases self.reactions@.len() - i,
                {
                    proof {
                        let t = s0.reactions.take(i as int);
                        assert(s0.reactions.take(i + 1) =~= t.push(s0.reactions[i as int]));
                        t.lemma_filter_push(s0.reactions[i as int], rpred);
                    }
                    if !str_eq(self.reactions[i].message_guid.as_str(), m.guid.as_str()) {
                        let rec = self.reactions[i].copy();
                        proof {
                            lemma_views_push(kept@, rec);
                        }
                        kept.push(rec);
                    }
                    i = i + 1;
                }
                proof {
                    lemma_take_all(s0.reactions);
                }
                self.reactions = kept;
            },
            None => {},
        }
        let rec = MessageRecord {
            guid: m.guid.clone(),
            chat_guid: m.chat_guid.clone(),
            handle_id: m.handle_id,
            text: m.text.clone(),
            subject: m.subject.clone(),
            is_from_me: m.is_from_me,
            date: m.date,
            date_read: m.date_read,
            date_edited: m.date_edited,
            is_unsent: m.is_unsent,
            has_attachments: m.has_attachments,
            thread_origin_guid: m.thread_origin_guid.clone(),
        };
        proof {
            lemma_views_push(self.messages@, rec);
        }
        self.messages.push(rec);
        let mut c = self.chats[ci].copy();
        if c.last_message_date < m.date {
            c.last_message_date = m.date;
        }
        c.last_message_preview = m.text.clone();
        if !m.is_from_me && c.unread_count < i64::MAX {
            c.unread_count = c.unread_count + 1;
        }
        proof {
            lemma_views_update(self.chats@, ci as int, c);
        }
        self.chats.set(ci, c);
        proof {
            assert(self@ == insert_message(s0, m@));
            lemma_insert_message_wf(s0, m@);
        }
        Ok(())
    }

    /// Replaces message `i` by `rec`, which keeps its guid.
    fn replace_message(&mut self, i: usize, rec: MessageRecord)
        requires
            old(self)@.wf(),
            i < old(self)@.messages.len(),
            rec@.guid == old(self)@.messages[i as int].guid,
            rec@.chat_guid == old(self)@.messages[i as int].chat_guid,
            rec@.handle_id == old(self)@.messages[i as int].handle_id,
        ensures
            final(self)@ == (StoreModel { messages: old(self)@.messages.update(i as int, rec@), ..old(self)@ }),
            final(self)@.wf(),
    {
        let ghost m = self@;
        proof {
            lemma_views_update(self.messages@, i as int, rec);
        }
        self.messages.set(i, rec);
        proof {
            lemma_message_update_wf(m, i as int, rec@);
        }
    }

    /// Dates the chat's unread received messages read at `now` and sets its
    /// unread count to zero.
    pub fn mark_chat_read_at(&mut self, chat_guid: &str, now: i64) -> (r: Result<(), StorageError>)
        requires
            old(self)@.wf(),
        ensures
            r is Ok,
            final(self)@ == mark_chat_read(old(self)@, chat_guid@, now),
            final(self)@.wf(),
    {
        let ghost m = self@;
        let mut i: usize = 0;
        while i < self.messages.len()
            invariant
                m.wf(),
                self@ == (StoreModel { messages: self@.messages, ..m }),
                self@.messages.len() == m.messages.len(),
                i <= m.messages.len(),
                forall|j: int| 0 <= j < i ==> #[trigger] self@.messages[j] == read_message(m.messages[j], chat_guid@, now),
                forall|j: int| i <= j < m.messages.len() ==> #[trigger] self@.messages[j] == m.messages[j],
            decreases m.messages.len() - i,
        {
            let ghost x0 = m.messages[i as int];
            assert(self@.messages[i as int] == x0);
            assert(self.messages@[i as int]@ == x0);
            let hit = !self.messages[i].is_from_me && self.messages[i].date_read == 0 && str_eq(
                self.messages[i].chat_guid.as_str(),
                chat_guid,
            );
            assert(hit == (x0.chat_guid == chat_guid@ && !x0.is_from_me && x0.date_read == 0));
            if hit {
                let mut rec = self.messages[i].copy();
                rec.date_read = now;
                assert(rec@ == read_message(x0, chat_guid@, now));
                proof {
                    lemma_views_update(self.messages@, i as int, rec);
                }
                self.messages.set(i, rec);
            }
            proof {
                assert(self@.messages[i as int] == read_message(x0, chat_guid@, now));
            }
            i = i + 1;
        }
        proof {
            assert(self@.messages =~= m.messages.map_values(|x: MessageModel| read_message(x, chat_guid@, now)));
            lemma_keys_kept(m, self@);
        }
        let ghost m1 = self@;
        match self.find_chat(chat_guid) {
            Some(ci) => {
                let mut c = self.chats[ci].copy();
                c.unread_count = 0;
                self.replace_chat(ci, c);
            },
            None => {},
        }
        Ok(())
    }

    /// Dates the chat's unread received messages read by the system clock and
    /// sets its unread count to zero.
    pub fn mark_chat_read(&mut self, chat_guid: &str) -> (r: Result<(), StorageError>)
        requires
            old(self)@.wf(),
        ensures
            r is Ok,
            exists|now: i64| final(self)@ == mark_chat_read(old(self)@, chat_guid@, now),
            final(self)@.wf(),
    {
        let now = now_epoch();
        self.mark_chat_read_at(chat_guid, now)
    }

    /// Replaces the message's text, dating the edit `now`.
    pub fn edit_message_at(&mut self, guid: &str, new_text: &str, now: i64) -> (r: Result<(), StorageError>)
        requires
            old(self)@.wf(),
        ensures
            r is Ok,
            final(self)@ == edit_message(old(self)@, guid@, new_text@, now),
            final(self)@.wf(),
    {
        match self.find_message(guid) {
            Some(i) => {
                let mut rec = self.messages[i].copy();
                rec.text = String::from_str(new_text);
                rec.date_edited = now;
                self.replace_message(i, rec);
            },
            None => {},
        }
        Ok(())
    }

    /// Replaces the message's text, dating the edit by the system clock.
    pub fn edit_message(&mut self, guid: &str, new_text: &str) -> (r: Result<(), StorageError>)
        requires
            old(self)@.wf(),
        ensures
            r is Ok,
            exists|now: i64| final(self)@ == edit_message(old(self)@, guid@, new_text@, now),
            final(self)@.wf(),
    {
        let now = now_epoch();
        self.edit_message_at(guid, new_text, now)
    }

    /// Marks the message unsent and clears its text.
    pub fn unsend_message(&mut self, guid: &str) -> (r: Result<(), StorageError>)
        requires
            old(self)@.wf(),
        ensures
            r is Ok,
            final(self)@ == unsend_message(old(self)@, guid@),
            final(self)@.wf(),
    {
        match self.find_message(guid) {
            Some(i) => {
                let mut rec = self.messages[i].copy();
                rec.is_unsent = true;
                rec.text = String::new();
                self.replace_message(i, rec);
            },
            None => {},
        }
        Ok(())
    }

    fn find_reaction(&self, message_guid: &str, handle_id: i64, reaction: &str) -> (r: Option<usize>)
        requires
            self@.wf(),
        ensures
            r matches Some(i) ==> self@.reaction_index(message_guid@, handle_id, reaction@) == i
                && i < self@.reactions.len(),
            r is None ==> self@.reaction_index(message_guid@, handle_id, reaction@) == -1
                && !self@.has_reaction(message_guid@, handle_id, reaction@),
    {
        let ghost m = self@;
        let mut i: usize = 0;
        while i < self.reactions.len()
            invariant
                m == self@,
                m.wf(),
                i <= self.reactions@.len(),
                forall|j: int|
                    0 <= j < i ==> !(#[trigger] m.reactions[j].message_guid == message_guid@
                        && m.reactions[j].handle_id == Some(handle_id)
                        && m.reactions[j].reaction_type == reaction@),
            decreases self.reactions@.len() - i,
        {
            let x = &self.reactions[i];
            if x.handle_id == Some(handle_id) && str_eq(x.message_guid.as_str(), message_guid)
                && str_eq(x.reaction_type.as_str(), reaction) {
                assert(m.reactions[i as int].message_guid == message_guid@);
                return Some(i);
            }
            i = i + 1;
        }
        None
    }

    /// Files a reaction to a message as of `now`, in place of one from the
    /// same handle of the same type; reactions without a handle replace
    /// none. The message must exist: otherwise nothing changes and
    /// `ForeignKey` is returned.
    #[verifier::spinoff_prover]
    pub fn add_reaction_at(
        &mut self,
        message_guid: &str,
        handle_id: Option<i64>,
        is_from_me: bool,
        reaction: &str,
        now: i64,
    ) -> (r: Result<(), StorageError>)
        requires
            old(self)@.wf(),
        ensures
            r is Ok <==> old(self)@.has_message(message_guid@),
            r matches Err(e) ==> e == StorageError::ForeignKey,
            final(self)@ == add_reaction(old(self)@, message_guid@, handle_id, is_from_me, reaction@, now),
            final(self)@.wf(),
    {
        let ghost m = self@;
        if self.find_message(message_guid).is_none() {
            return Err(StorageError::ForeignKey);
        }
        match handle_id {
            Some(h) => {
                match self.find_reaction(message_guid, h, reaction) {
                    Some(i) => {
                        proof {
                            lemma_views_remove(self.reactions@, i as int);
                        }
                        self.reactions.remove(i);
                    },
                    None => {},
                }
            },
            None => {},
        }
        let ghost mid = self@.reactions;
        let rec = ReactionRecord {
            message_guid: String::from_str(message_guid),
            handle_id,
            is_from_me,
            reaction_type: String::from_str(reaction),
            timestamp: now,
        };
        proof {
            lemma_views_push(self.reactions@, rec);
        }
        self.reactions.push(rec);
        proof {
            lemma_add_reaction_wf(m, message_guid@, handle_id, is_from_me, reaction@, now);
        }
        Ok(())
    }

    /// Files a reaction to a message as of the system clock.
    pub fn add_reaction(
        &mut self,
        message_guid: &str,
        handle_id: Option<i64>,
        is_from_me: bool,
        reaction: &str,
    ) -> (r: Result<(), StorageError>)
        requires
            old(self)@.wf(),
        ensures
            r is Ok <==> old(self)@.has_message(message_guid@),
            r matches Err(e) ==> e == StorageError::ForeignKey,
            exists|now: i64| final(self)@ == add_reaction(old(self)@, message_guid@, handle_id, is_from_me, reaction@, now),
            final(self)@.wf(),
    {
        let now = now_epoch();
        self.add_reaction_at(message_guid, handle_id, is_from_me, reaction, now)
    }

    /// A chat's messages with their senders. Its query runs its lines
    /// together (`m.thread_origin_guidFROM messages m`), so the database
    /// engine refuses to prepare it and the call always fails.
    pub fn messages_for_chat(&self, _chat_guid: &str, _limit: i64) -> (r: Result<Vec<MessageRow>, StorageError>)
        ensures
            r matches Err(e) && e == StorageError::Syntax(Query::ChatMessages),
    {
        Err(StorageError::Syntax(Query::ChatMessages))
    }

    /// Files the sample conversations as of the system clock, where the store
    /// holds no chat yet.
    pub fn seed_demo_data(&mut self) -> (r: Result<(), StorageError>)
        requires
            old(self)@.wf(),
        ensures
            old(self)@.chats.len() > 0 ==> r is Ok && final(self)@ == old(self)@,
            exists|now: i64| r == seed_demo_result(old(self)@, now) && final(self)@ == seed_demo(old(self)@, now),
            final(self)@.wf(),
    {
        if self.chats.len() > 0 {
            assert(seed_demo(self@, 0) == self@ && seed_demo_result(self@, 0) == Ok::<(), StorageError>(()));
            return Ok(());
        }
        let now = now_epoch();
        self.seed_demo_data_at(now)
    }

    /// Files one sample message.
    fn seed_one(&mut self, i: u64, chat: &str, handle_id: Option<i64>, text: &str, me: bool, date: i64) -> (r: Result<(), StorageError>)
        requires
            old(self)@.wf(),
            old(self)@.has_chat(chat@),
            handle_id matches Some(h) ==> old(self)@.has_handle(h),
        ensures
            r is Ok,
            final(self)@ == insert_message(old(self)@, seed_message(i as nat, chat@, handle_id, text@, me, date)),
            final(self)@.wf(),
    {
        let row = MessageRow {
            guid: concat("seed-msg-", decimal_string(i).as_str()),
            chat_guid: String::from_str(chat),
            handle_id,
            sender_address: String::new(),
            sender_display_name: String::new(),
            text: String::from_str(text),
            subject: String::new(),
            is_from_me: me,
            date,
            date_read: if me { 0 } else { date },
            date_edited: 0,
            is_unsent: false,
            has_attachments: false,
            thread_origin_guid: String::new(),
        };
        proof {
            reveal_strlit("seed-msg-");
        }
        assert(row@ == seed_message(i as nat, chat@, handle_id, text@, me, date));
        self.insert_message(&row)
    }

    /// Files the sample conversations as of `now`, where the store holds no
    /// chat yet.
    #[verifier::spinoff_prover]
    #[verifier::rlimit(60)]
    pub fn seed_demo_data_at(&mut self, now: i64) -> (r: Result<(), StorageError>)
        requires
            old(self)@.wf(),
        ensures
            r == seed_demo_result(old(self)@, now),
            final(self)@ == seed_demo(old(self)@, now),
            final(self)@.wf(),
    {
        let ghost m0 = self@;
        if self.chats.len() > 0 {
            return Ok(());
        }
        let ghost st0 = (m0, Ok::<Seq<i64>, StorageError>(Seq::<i64>::empty()));
        let ghost st1 = seed_handle_step(st0, "+15555550123"@, "iMessage"@, "Nyx"@, now);
        proof { lemma_upsert_handle_refs(m0, "+15555550123"@, "iMessage"@, "Nyx"@, now); }
        let h_nyx = match self.upsert_handle_at("+15555550123", "iMessage", "Nyx", now) {
            Ok(id) => id,
            Err(e) => { return Err(e); },
        };
        let ghost m1 = self@;
        let ghost st2 = seed_handle_step(st1, "kay@example.com"@, "iMessage"@, "Kay"@, now);
        proof { lemma_upsert_handle_refs(m1, "kay@example.com"@, "iMessage"@, "Kay"@, now); }
        let h_kay = match self.upsert_handle_at("kay@example.com", "iMessage", "Kay", now) {
            Ok(id) => id,
            Err(e) => { return Err(e); },
        };
        let ghost m2 = self@;
        let ghost st3 = seed_handle_step(st2, "+15555550456"@, "SMS"@, "Rho"@, now);
        proof { lemma_upsert_handle_refs(m2, "+15555550456"@, "SMS"@, "Rho"@, now); }
        let h_rho = match self.upsert_handle_at("+15555550456", "SMS", "Rho", now) {
            Ok(id) => id,
            Err(e) => { return Err(e); },
        };
        let ghost m3 = self@;
        let ghost st4 = seed_handle_step(st3, "+15555550789"@, "iMessage"@, "Jules"@, now);
        proof { lemma_upsert_handle_refs(m3, "+15555550789"@, "iMessage"@, "Jules"@, now); }
        let h_grp_a = match self.upsert_handle_at("+15555550789", "iMessage", "Jules", now) {
            Ok(id) => id,
            Err(e) => { return Err(e); },
        };
        let ghost m4 = self@;
        proof { lemma_upsert_handle_refs(m4, "sam@example.com"@, "iMessage"@, "Sam"@, now); }
        let h_grp_b = match self.upsert_handle_at("sam@example.com", "iMessage", "Sam", now) {
            Ok(id) => id,
            Err(e) => { return Err(e); },
        };
        let ghost hs = seq![h_nyx, h_kay, h_rho, h_grp_a, h_grp_b];
        let ghost mh = self@;
        proof {
            assert(seed_handles(m0, now) == (mh, Ok::<Seq<i64>, StorageError>(hs))) by {
                assert(Seq::<i64>::empty().push(h_nyx) =~= seq![h_nyx]);
                assert(seq![h_nyx].push(h_kay) =~= seq![h_nyx, h_kay]);
                assert(seq![h_nyx, h_kay].push(h_rho) =~= seq![h_nyx, h_kay, h_rho]);
                assert(seq![h_nyx, h_kay, h_rho].push(h_grp_a) =~= seq![h_nyx, h_kay, h_rho, h_grp_a]);
                assert(st1 == (m1, Ok::<Seq<i64>, StorageError>(seq![h_nyx])));
                assert(st2 == (m2, Ok::<Seq<i64>, StorageError>(seq![h_nyx, h_kay])));
                assert(st3 == (m3, Ok::<Seq<i64>, StorageError>(seq![h_nyx, h_kay, h_rho])));
                assert(st4 == (m4, Ok::<Seq<i64>, StorageError>(seq![h_nyx, h_kay, h_rho, h_grp_a])));
                assert(seq![h_nyx, h_kay, h_rho, h_grp_a].push(h_grp_b) =~= hs);
            }
            lemma_keeps_refs_trans(m1, m2, m3);
            lemma_keeps_refs_trans(m1, m3, m4);
            lemma_keeps_refs_trans(m1, m4, mh);
            lemma_keeps_refs_trans(m2, m3, m4);
            lemma_keeps_refs_trans(m2, m4, mh);
            lemma_keeps_refs_trans(m3, m4, mh);
            lemma_keeps_refs(m1, mh);
            lemma_keeps_refs(m2, mh);
            lemma_keeps_refs(m3, mh);
            lemma_keeps_refs(m4, mh);
            assert(forall|k: int| 0 <= k < 5 ==> mh.has_handle(#[trigger] hs[k]));
        }
        self.seed_chats_from(h_nyx, h_kay, h_rho, h_grp_a, h_grp_b, now);
        Ok(())
    }

    /// Files the sample chats and messages for the given handles.
    #[verifier::spinoff_prover]
    #[verifier::rlimit(60)]
    fn seed_chats_from(&mut self, h0: i64, h1: i64, h2: i64, h3: i64, h4: i64, now: i64)
        requires
            old(self)@.wf(),
            old(self)@.has_handle(h0),
            old(self)@.has_handle(h1),
            old(self)@.has_handle(h2),
            old(self)@.has_handle(h3),
            old(self)@.has_handle(h4),
        ensures
            final(self)@ == seed_messages(seed_chats(old(self)@, seq![h0, h1, h2, h3, h4], now), seq![h0, h1, h2, h3, h4], now),
            final(self)@.wf(),
    {
        let ghost m0 = self@;
        let ghost hs = seq![h0, h1, h2, h3, h4];
        self.upsert_chat_at("chat-nyx", "Nyx", true, false, now);
        let ghost a1 = self@;
        proof { lemma_upsert_chat_refs(m0, "chat-nyx"@, "Nyx"@, true, false, now); lemma_keeps_refs(m0, a1); }
        let v = vec![h0];
        assert(v@ =~= seq![h0]);
        let r = self.set_chat_participants("chat-nyx", v.as_slice());
        let ghost a2 = self@;
        proof {
            assert(participants_accepted(a1, "chat-nyx"@, seq![h0]));
            lemma_small_steps_refs(a1, "chat-nyx"@, seq![h0], true, 0, seed_message(0, Seq::empty(), None, Seq::empty(), true, 0));
            lemma_keeps_refs(a1, a2);
        }
        self.set_chat_pin("chat-nyx", true, 0);
        let ghost a3 = self@;
        proof {
            lemma_small_steps_refs(a2, "chat-nyx"@, seq![h0], true, 0, seed_message(0, Seq::empty(), None, Seq::empty(), true, 0));
            lemma_keeps_refs(a2, a3);
        }
        self.upsert_chat_at("chat-kay", "Kay", true, false, now);
        let ghost a4 = self@;
        proof { lemma_upsert_chat_refs(a3, "chat-kay"@, "Kay"@, true, false, now); lemma_keeps_refs(a3, a4); }
        let v = vec![h1];
        assert(v@ =~= seq![h1]);
        let r = self.set_chat_participants("chat-kay", v.as_slice());
        let ghost a5 = self@;
        proof {
            assert(participants_accepted(a4, "chat-kay"@, seq![h1]));
            lemma_small_steps_refs(a4, "chat-kay"@, seq![h1], true, 0, seed_message(0, Seq::empty(), None, Seq::empty(), true, 0));
            lemma_keeps_refs(a4, a5);
        }
        self.upsert_chat_at("chat-rho", "Rho", false, false, now);
        let ghost a6 = self@;
        proof { lemma_upsert_chat_refs(a5, "chat-rho"@, "Rho"@, false, false, now); lemma_keeps_refs(a5, a6); }
        let v = vec![h2];
        assert(v@ =~= seq![h2]);
        let r = self.set_chat_participants("chat-rho", v.as_slice());
        let ghost a7 = self@;
        proof {
            assert(participants_accepted(a6, "chat-rho"@, seq![h2]));
            lemma_small_steps_refs(a6, "chat-rho"@, seq![h2], true, 0, seed_message(0, Seq::empty(), None, Seq::empty(), true, 0));
            lemma_keeps_refs(a6, a7);
        }
        self.upsert_chat_at("chat-group", "Friday roll", true, true, now);
        let ghost a8 = self@;
        proof { lemma_upsert_chat_refs(a7, "chat-group"@, "Friday roll"@, true, true, now); lemma_keeps_refs(a7, a8); }
        let v = vec![h3, h4];
        assert(v@ =~= seq![h3, h4]);
        let r = self.set_chat_participants("chat-group", v.as_slice());
        let ghost a9 = self@;
        proof {
            assert(participants_accepted(a8, "chat-group"@, seq![h3, h4]));
            lemma_small_steps_refs(a8, "chat-group"@, seq![h3, h4], true, 0, seed_message(0, Seq::empty(), None, Seq::empty(), true, 0));
            lemma_keeps_refs(a8, a9);
            assert(hs[0] == h0 && hs[1] == h1 && hs[2] == h2 && hs[3] == h3 && hs[4] == h4);
            assert(seq![hs[0]] =~= seq![h0]);
            assert(seq![hs[1]] =~= seq![h1]);
            assert(seq![hs[2]] =~= seq![h2]);
            assert(seq![hs[3], hs[4]] =~= seq![h3, h4]);
            assert(a9 == seed_chats(m0, hs, now));
        }
        self.seed_messages_from(h0, h1, h2, h3, h4, now);
    }

    /// Files the nine sample messages.
    #[verifier::spinoff_prover]
    #[verifier::rlimit(60)]
    fn seed_messages_from(&mut self, h0: i64, h1: i64, h2: i64, h3: i64, h4: i64, now: i64)
        requires
            old(self)@.wf(),
            old(self)@.has_handle(h0),
            old(self)@.has_handle(h1),
            old(self)@.has_handle(h2),
            old(self)@.has_handle(h3),
            old(self)@.has_handle(h4),
            old(self)@.has_chat("chat-nyx"@),
            old(self)@.has_chat("chat-kay"@),
            old(self)@.has_chat("chat-rho"@),
            old(self)@.has_chat("chat-group"@),
        ensures
            final(self)@ == seed_messages(old(self)@, seq![h0, h1, h2, h3, h4], now),
            final(self)@.wf(),
    {
        let ghost m0 = self@;
        let ghost hs = seq![h0, h1, h2, h3, h4];
        let ghost z = seed_message(0, Seq::empty(), None, Seq::empty(), true, 0);
        self.seed_one(0, "chat-nyx", Some(h0), "hey you", false, now.wrapping_sub(3600));
        let ghost b1 = self@;
        proof { lemma_small_steps_refs(m0, Seq::empty(), Seq::empty(), true, 0, seed_message(0, "chat-nyx"@, Some(h0), "hey you"@, false, now.wrapping_sub(3600))); lemma_keeps_refs(m0, b1); }
        self.seed_one(1, "chat-nyx", None, "hey! sorry was heads-down", true, now.wrapping_sub(3500));
        let ghost b2 = self@;
        proof { lemma_small_steps_refs(b1, Seq::empty(), Seq::empty(), true, 0, seed_message(1, "chat-nyx"@, None, "hey! sorry was heads-down"@, true, now.wrapping_sub(3500))); lemma_keeps_refs(b1, b2); }
        self.seed_one(2, "chat-nyx", Some(h0), "no worries \u{2014} dinner still on?", false, now.wrapping_sub(900));
        let ghost b3 = self@;
        proof { lemma_small_steps_refs(b2, Seq::empty(), Seq::empty(), true, 0, seed_message(2, "chat-nyx"@, Some(h0), "no worries \u{2014} dinner still on?"@, false, now.wrapping_sub(900))); lemma_keeps_refs(b2, b3); }
        self.seed_one(3, "chat-kay", Some(h1), "sending the doc in a sec", false, now.wrapping_sub(7200));
        let ghost b4 = self@;
        proof { lemma_small_steps_refs(b3, Seq::empty(), Seq::empty(), true, 0, seed_message(3, "chat-kay"@, Some(h1), "sending the doc in a sec"@, false, now.wrapping_sub(7200))); lemma_keeps_refs(b3, b4); }
        self.seed_one(4, "chat-kay", None, "thanks \u{1F64F}", true, now.wrapping_sub(7100));
        let ghost b5 = self@;
        proof { lemma_small_steps_refs(b4, Seq::empty(), Seq::empty(), true, 0, seed_message(4, "chat-kay"@, None, "thanks \u{1F64F}"@, true, now.wrapping_sub(7100))); lemma_keeps_refs(b4, b5); }
        self.seed_one(5, "chat-rho", Some(h2), "can you pick up milk", false, now.wrapping_sub(60));
        let ghost b6 = self@;
        proof { lemma_small_steps_refs(b5, Seq::empty(), Seq::empty(), true, 0, seed_message(5, "chat-rho"@, Some(h2), "can you pick up milk"@, false, now.wrapping_sub(60))); lemma_keeps_refs(b5, b6); }
        self.seed_one(6, "chat-group", Some(h3), "bar at 7?", false, now.wrapping_sub(300));
        let ghost b7 = self@;
        proof { lemma_small_steps_refs(b6, Seq::empty(), Seq::empty(), true, 0, seed_message(6, "chat-group"@, Some(h3), "bar at 7?"@, false, now.wrapping_sub(300))); lemma_keeps_refs(b6, b7); }
        self.seed_one(7, "chat-group", Some(h4), "i'm in", false, now.wrapping_sub(250));
        let ghost b8 = self@;
        proof { lemma_small_steps_refs(b7, Seq::empty(), Seq::empty(), true, 0, seed_message(7, "chat-group"@, Some(h4), "i'm in"@, false, now.wrapping_sub(250))); lemma_keeps_refs(b7, b8); }
        self.seed_one(8, "chat-group", None, "same", true, now.wrapping_sub(240));
    }
}

impl HandleRecord {
    fn copy(&self) -> (r: HandleRecord)
        ensures
            r@ == self@,
    {
        HandleRecord {
            id: self.id,
            address: self.address.clone(),
            service: self.service.clone(),
            display_name: self.display_name.clone(),
            created_at: self.created_at,
        }
    }
}

impl KvRecord {
    fn copy(&self) -> (r: KvRecord)
        ensures
            r@ == self@,
    {
        KvRecord { key: self.key.clone(), value: self.value.clone() }
    }
}

/// Loading a store that was kept elsewhere, one row at a time, and handing
/// out its rows to be kept. A row that would break a key or a reference is
/// refused and leaves the store as it was.
impl Storage {
    /// Adds a chat row; its guid must be new.
    pub fn load_chat(&mut self, rec: ChatRecord) -> (r: Result<(), StorageError>)
        requires
            old(self)@.wf(),
        ensures
            match load_chat_step(old(self)@, rec@) {
                Ok(m1) => r is Ok && final(self)@ == m1,
                Err(e) => r == Err::<(), StorageError>(e) && final(self)@ == old(self)@,
            },
            final(self)@.wf(),
    {
        if self.find_chat(rec.guid.as_str()).is_some() {
            return Err(StorageError::Unique);
        }
        let ghost m = self@;
        proof {
            lemma_views_push(self.chats@, rec);
            lemma_load_chat_wf(m, rec@);
        }
        self.chats.push(rec);
        Ok(())
    }

    /// Adds a handle row; its id must be positive, and its id and its
    /// address on its service new. The handle sequence is raised to its id.
    pub fn load_handle(&mut self, rec: HandleRecord) -> (r: Result<(), StorageError>)
        requires
            old(self)@.wf(),
        ensures
            match load_handle_step(old(self)@, rec@) {
                Ok(m1) => r is Ok && final(self)@ == m1,
                Err(e) => r == Err::<(), StorageError>(e) && final(self)@ == old(self)@,
            },
            final(self)@.wf(),
    {
        if rec.id < 1 {
            return Err(StorageError::OutOfRange);
        }
        if self.find_handle(rec.id).is_some() {
            return Err(StorageError::Unique);
        }
        if self.find_handle_key(rec.address.as_str(), rec.service.as_str()).is_some() {
            return Err(StorageError::Unique);
        }
        let ghost m = self@;
        proof {
            assert(!m.has_handle_key(rec@.address, rec@.service));
            lemma_views_push(self.handles@, rec);
            lemma_load_handle_wf(m, rec@);
        }
        if rec.id > self.last_handle_id {
            self.last_handle_id = rec.id;
        }
        self.handles.push(rec);
        Ok(())
    }

    /// Raises the handle sequence to `seq`, the largest id ever given out,
    /// where it is lower.
    pub fn note_handle_sequence(&mut self, seq: i64)
        requires
            old(self)@.wf(),
        ensures
            final(self)@ == note_sequence(old(self)@, seq),
            final(self)@.wf(),
    {
        if seq > self.last_handle_id {
            proof {
                lemma_handle_sequence_wf(self@, seq);
            }
            self.last_handle_id = seq;
        }
    }

    fn find_member(&self, chat_guid: &str, handle_id: i64) -> (r: bool)
        requires
            self@.wf(),
        ensures
            r == has_member(self@, MemberModel { chat_guid: chat_guid@, handle_id }),
    {
        let ghost m = self@;
        let ghost x = MemberModel { chat_guid: chat_guid@, handle_id };
        let mut i: usize = 0;
        while i < self.members.len()
            invariant
                m == self@,
                x == (MemberModel { chat_guid: chat_guid@, handle_id }),
                i <= self.members@.len(),
                forall|j: int| 0 <= j < i ==> #[trigger] m.members[j] != x,
            decreases self.members@.len() - i,
        {
            assert(m.members[i as int] == self.members@[i as int]@);
            if self.members[i].handle_id == handle_id && str_eq(self.members[i].chat_guid.as_str(), chat_guid) {
                assert(m.members[i as int] == x);
                return true;
            }
            i = i + 1;
        }
        false
    }

    /// Adds a chat membership; its chat and handle must exist and it must be new.
    pub fn load_member(&mut self, rec: MemberRecord) -> (r: Result<(), StorageError>)
        requires
            old(self)@.wf(),
        ensures
            match load_member_step(old(self)@, rec@) {
                Ok(m1) => r is Ok && final(self)@ == m1,
                Err(e) => r == Err::<(), StorageError>(e) && final(self)@ == old(self)@,
            },
            final(self)@.wf(),
    {
        if self.find_chat(rec.chat_guid.as_str()).is_none() || self.find_handle(rec.handle_id).is_none() {
            return Err(StorageError::ForeignKey);
        }
        if self.find_member(rec.chat_guid.as_str(), rec.handle_id) {
            return Err(StorageError::Unique);
        }
        let ghost m = self@;
        proof {
            lemma_views_push(self.members@, rec);
            lemma_load_member_wf(m, rec@);
        }
        self.members.push(rec);
        Ok(())
    }

    /// Adds a message row; its chat, and its sender where it has one, must
    /// exist and its guid must be new.
    pub fn load_message(&mut self, rec: MessageRecord) -> (r: Result<(), StorageError>)
        requires
            old(self)@.wf(),
        ensures
            match load_message_step(old(self)@, rec@) {
                Ok(m1) => r is Ok && final(self)@ == m1,
                Err(e) => r == Err::<(), StorageError>(e) && final(self)@ == old(self)@,
            },
            final(self)@.wf(),
    {
        if self.find_chat(rec.chat_guid.as_str()).is_none() {
            return Err(StorageError::ForeignKey);
        }
        match rec.handle_id {
            Some(h) => {
                if self.find_handle(h).is_none() {
                    return Err(StorageError::ForeignKey);
                }
            },
            None => {},
        }
        if self.find_message(rec.guid.as_str()).is_some() {
            return Err(StorageError::Unique);
        }
        let ghost m = self@;
        proof {
            lemma_views_push(self.messages@, rec);
            lemma_load_message_wf(m, rec@);
        }
        self.messages.push(rec);
        Ok(())
    }

    /// Adds a reaction row; its message must exist and, where it has a
    /// handle, no reaction of that handle and type to that message may.
    pub fn load_reaction(&mut self, rec: ReactionRecord) -> (r: Result<(), StorageError>)
        requires
            old(self)@.wf(),
        ensures
            match load_reaction_step(old(self)@, rec@) {
                Ok(m1) => r is Ok && final(self)@ == m1,
                Err(e) => r == Err::<(), StorageError>(e) && final(self)@ == old(self)@,
            },
            final(self)@.wf(),
    {
        if self.find_message(rec.message_guid.as_str()).is_none() {
            return Err(StorageError::ForeignKey);
        }
        match rec.handle_id {
            Some(h) => {
                if self.find_reaction(rec.message_guid.as_str(), h, rec.reaction_type.as_str()).is_some() {
                    return Err(StorageError::Unique);
                }
            },
            None => {},
        }
        let ghost m = self@;
        proof {
            lemma_views_push(self.reactions@, rec);
            lemma_load_reaction_wf(m, rec@);
        }
        self.reactions.push(rec);
        Ok(())
    }

    /// Adds a setting; its key must be new.
    pub fn load_setting(&mut self, rec: KvRecord) -> (r: Result<(), StorageError>)
        requires
            old(self)@.wf(),
        ensures
            match load_setting_step(old(self)@, rec@) {
                Ok(m1) => r is Ok && final(self)@ == m1,
                Err(e) => r == Err::<(), StorageError>(e) && final(self)@ == old(self)@,
            },
            final(self)@.wf(),
    {
        if self.find_kv(rec.key.as_str()).is_some() {
            return Err(StorageError::Unique);
        }
        let ghost m = self@;
        proof {
            lemma_views_push(self.kv@, rec);
            lemma_load_kv_wf(m, rec@);
        }
        self.kv.push(rec);
        Ok(())
    }

    /// The chat rows, in row order.
    pub fn chat_records(&self) -> (r: Vec<ChatRecord>)
        ensures
            views(r@) == self@.chats,
    {
        let mut out: Vec<ChatRecord> = Vec::new();
        let mut i: usize = 0;
        while i < self.chats.len()
            invariant
                i <= self.chats@.len(),
                views(out@) == views(self.chats@).take(i as int),
            decreases self.chats@.len() - i,
        {
            let x = self.chats[i].copy();
            proof {
                lemma_views_push(out@, x);
                assert(views(self.chats@).take(i + 1) =~= views(self.chats@).take(i as int).push(x@));
            }
            out.push(x);
            i = i + 1;
        }
        proof {
            lemma_take_all(views(self.chats@));
        }
        out
    }

    /// The handle rows, in row order.
    pub fn handle_records(&self) -> (r: Vec<HandleRecord>)
        ensures
            views(r@) == self@.handles,
    {
        let mut out: Vec<HandleRecord> = Vec::new();
        let mut i: usize = 0;
        while i < self.handles.len()
            invariant
                i <= self.handles@.len(),
                views(out@) == views(self.handles@).take(i as int),
            decreases self.handles@.len() - i,
        {
            let x = self.handles[i].copy();
            proof {
                lemma_views_push(out@, x);
                assert(views(self.handles@).take(i + 1) =~= views(self.handles@).take(i as int).push(x@));
            }
            out.push(x);
            i = i + 1;
        }
        proof {
            lemma_take_all(views(self.handles@));
        }
        out
    }

    /// The chat memberships, in row order.
    pub fn member_records(&self) -> (r: Vec<MemberRecord>)
        ensures
            views(r@) == self@.members,
    {
        let mut out: Vec<MemberRecord> = Vec::new();
        let mut i: usize = 0;
        while i < self.members.len()
            invariant
                i <= self.members@.len(),
                views(out@) == views(self.members@).take(i as int),
            decreases self.members@.len() - i,
        {
            let x = self.members[i].copy();
            proof {
                lemma_views_push(out@, x);
                assert(views(self.members@).take(i + 1) =~= views(self.members@).take(i as int).push(x@));
            }
            out.push(x);
            i = i + 1;
        }
        proof {
            lemma_take_all(views(self.members@));
        }
        out
    }

    /// The message rows, in row order.
    pub fn message_records(&self) -> (r: Vec<MessageRecord>)
        ensures
            views(r@) == self@.messages,
    {
        let mut out: Vec<MessageRecord> = Vec::new();
        let mut i: usize = 0;
        while i < self.messages.len()
            invariant
                i <= self.messages@.len(),
                views(out@) == views(self.messages@).take(i as int),
            decreases self.messages@.len() - i,
        {
            let x = self.messages[i].copy();
            proof {
                lemma_views_push(out@, x);
                assert(views(self.messages@).take(i + 1) =~= views(self.messages@).take(i as int).push(x@));
            }
            out.push(x);
            i = i + 1;
        }
        proof {
            lemma_take_all(views(self.messages@));
        }
        out
    }

    /// The reaction rows, in row order.
    pub fn reaction_records(&self) -> (r: Vec<ReactionRecord>)
        ensures
            views(r@) == self@.reactions,
    {
        let mut out: Vec<ReactionRecord> = Vec::new();
        let mut i: usize = 0;
        while i < self.reactions.len()
            invariant
                i <= self.reactions@.len(),
                views(out@) == views(self.reactions@).take(i as int),
            decreases self.reactions@.len() - i,
        {
            let x = self.reactions[i].copy();
            proof {
                lemma_views_push(out@, x);
                assert(views(self.reactions@).take(i + 1) =~= views(self.reactions@).take(i as int).push(x@));
            }
            out.push(x);
            i = i + 1;
        }
        proof {
            lemma_take_all(views(self.reactions@));
        }
        out
    }

    /// The settings, in row order.
    pub fn setting_records(&self) -> (r: Vec<KvRecord>)
        ensures
            views(r@) == self@.kv,
    {
        let mut out: Vec<KvRecord> = Vec::new();
        let mut i: usize = 0;
        while i < self.kv.len()
            invariant
                i <= self.kv@.len(),
                views(out@) == views(self.kv@).take(i as int),
            decreases self.kv@.len() - i,
        {
            let x = self.kv[i].copy();
            proof {
                lemma_views_push(out@, x);
                assert(views(self.kv@).take(i + 1) =~= views(self.kv@).take(i as int).push(x@));
            }
            out.push(x);
            i = i + 1;
        }
        proof {
            lemma_take_all(views(self.kv@));
        }
        out
    }

    /// The largest handle id ever given out.
    pub fn handle_sequence(&self) -> (r: i64)
        ensures
            r == self@.last_handle_id,
    {
        self.last_handle_id
    }
}

} // verus!
