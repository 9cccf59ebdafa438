//! The mathematical model of the message store: its tables as sequences of
//! rows, what keeps them consistent, and what each operation does to them.

use vstd::prelude::*;

use crate::rank::rank_sort;
use crate::storage::HandleRow;
use crate::text::{decimal};

verus! {

/// Why a store operation was refused.
#[derive(PartialEq, Eq, Structural, Debug, Clone, Copy)]
pub enum StorageError {
    /// A row would refer to a chat, handle or message that does not exist.
    ForeignKey,
    /// No handle id is left to give out.
    Full,
    /// A stored id is outside the range the store takes.
    OutOfRange,
    /// A row would repeat the key of another.
    Unique,
    /// The database engine cannot prepare the query: its SQL text does not parse.
    Syntax(Query),
}

/// The store's queries whose SQL text, as the client writes it, the database
/// engine refuses to prepare: each line of the statement runs into the next
/// without a space (`last_message_previewFROM`, `chJOIN`, `0ORDER`).
#[derive(PartialEq, Eq, Structural, Debug, Clone, Copy)]
pub enum Query {
    /// The chat list, archived chats included.
    AllChats,
    /// The chat list without archived chats.
    UnarchivedChats,
    /// The names of a chat's participants.
    ChatParticipants,
    /// A chat's messages with their senders.
    ChatMessages,
}

pub struct ChatModel {
    pub guid: Seq<char>,
    pub title: Seq<char>,
    pub is_imessage: bool,
    pub is_group: bool,
    pub is_archived: bool,
    pub is_pinned: bool,
    pub pin_order: i32,
    pub unread_count: i64,
    pub last_message_date: i64,
    pub last_message_preview: Seq<char>,
    pub created_at: i64,
}

pub struct HandleModel {
    pub id: i64,
    pub address: Seq<char>,
    pub service: Seq<char>,
    pub display_name: Seq<char>,
    pub created_at: i64,
}

pub struct MemberModel {
    pub chat_guid: Seq<char>,
    pub handle_id: i64,
}

pub struct MessageModel {
    pub guid: Seq<char>,
    pub chat_guid: Seq<char>,
    pub handle_id: Option<i64>,
    pub text: Seq<char>,
    pub subject: Seq<char>,
    pub is_from_me: bool,
    pub date: i64,
    pub date_read: i64,
    pub date_edited: i64,
    pub is_unsent: bool,
    pub has_attachments: bool,
    pub thread_origin_guid: Seq<char>,
}

pub struct ReactionModel {
    pub message_guid: Seq<char>,
    pub handle_id: Option<i64>,
    pub is_from_me: bool,
    pub reaction_type: Seq<char>,
    pub timestamp: i64,
}

pub struct KvModel {
    pub key: Seq<char>,
    pub value: Seq<char>,
}

/// The whole store: each table in row order, and the largest handle id ever given out.
pub struct StoreModel {
    pub chats: Seq<ChatModel>,
    pub handles: Seq<HandleModel>,
    pub members: Seq<MemberModel>,
    pub messages: Seq<MessageModel>,
    pub reactions: Seq<ReactionModel>,
    pub kv: Seq<KvModel>,
    pub last_handle_id: i64,
}

pub struct ChatRowView {
    pub guid: Seq<char>,
    pub title: Seq<char>,
    pub is_imessage: bool,
    pub is_group: bool,
    pub is_archived: bool,
    pub is_pinned: bool,
    pub pin_order: i32,
    pub unread_count: i32,
    pub last_message_date: i64,
    pub last_message_preview: Seq<char>,
    pub participant_summary: Seq<char>,
}

pub struct MessageRowView {
    pub guid: Seq<char>,
    pub chat_guid: Seq<char>,
    pub handle_id: Option<i64>,
    pub sender_address: Seq<char>,
    pub sender_display_name: Seq<char>,
    pub text: Seq<char>,
    pub subject: Seq<char>,
    pub is_from_me: bool,
    pub date: i64,
    pub date_read: i64,
    pub date_edited: i64,
    pub is_unsent: bool,
    pub has_attachments: bool,
    pub thread_origin_guid: Seq<char>,
}

pub struct HandleRowView {
    pub id: i64,
    pub address: Seq<char>,
    pub service: Seq<char>,
    pub display_name: Seq<char>,
}

impl StoreModel {
    /// The place of chat `g`, or -1.
    pub open spec fn chat_index(self, g: Seq<char>) -> int {
        if self.has_chat(g) {
            choose|i: int| 0 <= i < self.chats.len() && #[trigger] self.chats[i].guid == g
        } else {
            -1
        }
    }

    pub open spec fn has_chat(self, g: Seq<char>) -> bool {
        exists|i: int| 0 <= i < self.chats.len() && #[trigger] self.chats[i].guid == g
    }

    pub open spec fn has_handle_key(self, address: Seq<char>, service: Seq<char>) -> bool {
        exists|i: int|
            0 <= i < self.handles.len() && #[trigger] self.handles[i].address == address
                && self.handles[i].service == service
    }

    /// The place of the handle with this address and service, or -1.
    pub open spec fn handle_key_index(self, address: Seq<char>, service: Seq<char>) -> int {
        if self.has_handle_key(address, service) {
            choose|i: int|
                0 <= i < self.handles.len() && #[trigger] self.handles[i].address == address
                    && self.handles[i].service == service
        } else {
            -1
        }
    }

    /// The place of the handle with id `id`, or -1.
    pub open spec fn handle_index(self, id: i64) -> int {
        if self.has_handle(id) {
            choose|i: int| 0 <= i < self.handles.len() && #[trigger] self.handles[i].id == id
        } else {
            -1
        }
    }

    pub open spec fn has_handle(self, id: i64) -> bool {
        exists|i: int| 0 <= i < self.handles.len() && #[trigger] self.handles[i].id == id
    }

    /// The place of message `g`, or -1.
    pub open spec fn message_index(self, g: Seq<char>) -> int {
        if self.has_message(g) {
            choose|i: int| 0 <= i < self.messages.len() && #[trigger] self.messages[i].guid == g
        } else {
            -1
        }
    }

    pub open spec fn has_message(self, g: Seq<char>) -> bool {
        exists|i: int| 0 <= i < self.messages.len() && #[trigger] self.messages[i].guid == g
    }

    pub open spec fn has_key(self, k: Seq<char>) -> bool {
        exists|i: int| 0 <= i < self.kv.len() && #[trigger] self.kv[i].key == k
    }

    /// The place of key `k`, or -1.
    pub open spec fn kv_index(self, k: Seq<char>) -> int {
        if self.has_key(k) {
            choose|i: int| 0 <= i < self.kv.len() && #[trigger] self.kv[i].key == k
        } else {
            -1
        }
    }

    pub open spec fn has_reaction(self, g: Seq<char>, h: i64, t: Seq<char>) -> bool {
        exists|i: int|
            0 <= i < self.reactions.len() && #[trigger] self.reactions[i].message_guid == g
                && self.reactions[i].handle_id == Some(h) && self.reactions[i].reaction_type == t
    }

    /// The place of the reaction that a new one with a handle replaces: same
    /// message, handle and type; or -1.
    pub open spec fn reaction_index(self, g: Seq<char>, h: i64, t: Seq<char>) -> int {
        if self.has_reaction(g, h, t) {
            choose|i: int|
                0 <= i < self.reactions.len() && #[trigger] self.reactions[i].message_guid == g
                    && self.reactions[i].handle_id == Some(h) && self.reactions[i].reaction_type == t
        } else {
            -1
        }
    }

    /// Keys are unique and every reference names an existing row.
    pub open spec fn wf(self) -> bool {
        &&& forall|i: int, j: int|
            0 <= i < self.chats.len() && 0 <= j < self.chats.len() && i != j ==> #[trigger] self.chats[i].guid
                != #[trigger] self.chats[j].guid
        &&& forall|i: int, j: int|
            #![trigger self.handles[i], self.handles[j]]
            0 <= i < self.handles.len() && 0 <= j < self.handles.len() && i != j ==> {
                &&& self.handles[i].id != self.handles[j].id
                &&& (self.handles[i].address != self.handles[j].address || self.handles[i].service
                    != self.handles[j].service)
            }
        &&& forall|i: int|
            0 <= i < self.handles.len() ==> 1 <= #[trigger] self.handles[i].id <= self.last_handle_id
        &&& self.last_handle_id >= 0
        &&& forall|i: int, j: int|
            0 <= i < self.members.len() && 0 <= j < self.members.len() && i != j ==> #[trigger] self.members[i]
                != #[trigger] self.members[j]
        &&& forall|i: int|
            0 <= i < self.members.len() ==> self.has_chat(#[trigger] self.members[i].chat_guid)
                && self.has_handle(self.members[i].handle_id)
        &&& forall|i: int, j: int|
            0 <= i < self.messages.len() && 0 <= j < self.messages.len() && i != j ==> #[trigger] self.messages[i].guid
                != #[trigger] self.messages[j].guid
        &&& forall|i: int|
            0 <= i < self.messages.len() ==> self.has_chat(#[trigger] self.messages[i].chat_guid)
                && (self.messages[i].handle_id matches Some(h) ==> self.has_handle(h))
        &&& forall|i: int|
            0 <= i < self.reactions.len() ==> self.has_message(
                #[trigger] self.reactions[i].message_guid,
            )
        &&& forall|i: int, j: int|
            0 <= i < self.reactions.len() && 0 <= j < self.reactions.len() && i != j
                && #[trigger] self.reactions[i].handle_id is Some ==> !(
            self.reactions[i].message_guid == #[trigger] self.reactions[j].message_guid
                && self.reactions[i].handle_id == self.reactions[j].handle_id
                && self.reactions[i].reaction_type == self.reactions[j].reaction_type)
        &&& forall|i: int, j: int|
            0 <= i < self.kv.len() && 0 <= j < self.kv.len() && i != j ==> #[trigger] self.kv[i].key
                != #[trigger] self.kv[j].key
    }
}

/// Chats that exist in `a` exist in `b` where `b` keeps `a`'s guids at their places.
pub proof fn lemma_chats_kept(a: StoreModel, b: StoreModel)
    requires
        a.chats.len() <= b.chats.len(),
        forall|i: int| 0 <= i < a.chats.len() ==> #[trigger] b.chats[i].guid == a.chats[i].guid,
    ensures
        forall|g: Seq<char>| a.has_chat(g) ==> #[trigger] b.has_chat(g),
{
    assert forall|g: Seq<char>| a.has_chat(g) implies #[trigger] b.has_chat(g) by {
        let i = choose|i: int| 0 <= i < a.chats.len() && #[trigger] a.chats[i].guid == g;
        assert(b.chats[i].guid == g);
    }
}

/// Handles that exist in `a` exist in `b` where `b` keeps `a`'s ids at their places.
pub proof fn lemma_handles_kept(a: StoreModel, b: StoreModel)
    requires
        a.handles.len() <= b.handles.len(),
        forall|i: int| 0 <= i < a.handles.len() ==> #[trigger] b.handles[i].id == a.handles[i].id,
    ensures
        forall|h: i64| a.has_handle(h) ==> #[trigger] b.has_handle(h),
{
    assert forall|h: i64| a.has_handle(h) implies #[trigger] b.has_handle(h) by {
        let i = choose|i: int| 0 <= i < a.handles.len() && #[trigger] a.handles[i].id == h;
        assert(b.handles[i].id == h);
    }
}

/// Messages that exist in `a` exist in `b` where `b` keeps `a`'s guids at their places.
pub proof fn lemma_messages_kept(a: StoreModel, b: StoreModel)
    requires
        a.messages.len() <= b.messages.len(),
        forall|i: int| 0 <= i < a.messages.len() ==> #[trigger] b.messages[i].guid == a.messages[i].guid,
    ensures
        forall|g: Seq<char>| a.has_message(g) ==> #[trigger] b.has_message(g),
{
    assert forall|g: Seq<char>| a.has_message(g) implies #[trigger] b.has_message(g) by {
        let i = choose|i: int| 0 <= i < a.messages.len() && #[trigger] a.messages[i].guid == g;
        assert(b.messages[i].guid == g);
    }
}

/// What `wf` says of references carries over to `b` where `b` keeps the keys
/// of `a`'s chats, handles and messages at their places.
pub proof fn lemma_keys_kept(a: StoreModel, b: StoreModel)
    requires
        a.chats.len() <= b.chats.len(),
        forall|i: int| 0 <= i < a.chats.len() ==> #[trigger] b.chats[i].guid == a.chats[i].guid,
        a.handles.len() <= b.handles.len(),
        forall|i: int| 0 <= i < a.handles.len() ==> #[trigger] b.handles[i].id == a.handles[i].id,
        a.messages.len() <= b.messages.len(),
        forall|i: int| 0 <= i < a.messages.len() ==> #[trigger] b.messages[i].guid == a.messages[i].guid,
    ensures
        forall|g: Seq<char>| a.has_chat(g) ==> #[trigger] b.has_chat(g),
        forall|h: i64| a.has_handle(h) ==> #[trigger] b.has_handle(h),
        forall|g: Seq<char>| a.has_message(g) ==> #[trigger] b.has_message(g),
{
    lemma_chats_kept(a, b);
    lemma_handles_kept(a, b);
    lemma_messages_kept(a, b);
}

/// The empty store.
pub open spec fn empty_store() -> StoreModel {
    StoreModel {
        chats: Seq::empty(),
        handles: Seq::empty(),
        members: Seq::empty(),
        messages: Seq::empty(),
        reactions: Seq::empty(),
        kv: Seq::empty(),
        last_handle_id: 0,
    }
}

/// The value stored under `k`.
pub open spec fn kv_value(m: StoreModel, k: Seq<char>) -> Option<Seq<char>> {
    let i = m.kv_index(k);
    if i >= 0 {
        Some(m.kv[i].value)
    } else {
        None
    }
}

/// Stores `v` under `k`, in place of what was there.
pub open spec fn kv_set(m: StoreModel, k: Seq<char>, v: Seq<char>) -> StoreModel {
    let i = m.kv_index(k);
    StoreModel {
        kv: if i >= 0 {
            m.kv.update(i, KvModel { key: k, value: v })
        } else {
            m.kv.push(KvModel { key: k, value: v })
        },
        ..m
    }
}

/// What `upsert_handle` returns: the id of the handle with this address and
/// service, or a fresh one where there is none. Each call draws the next id
/// of the handle sequence first, even where the handle exists, so it is
/// refused with `Full` where no id is left.
pub open spec fn upsert_handle_result(m: StoreModel, address: Seq<char>, service: Seq<char>) -> Result<i64, StorageError> {
    let i = m.handle_key_index(address, service);
    if m.last_handle_id == i64::MAX {
        Err(StorageError::Full)
    } else if i >= 0 {
        Ok(m.handles[i].id)
    } else {
        Ok((m.last_handle_id + 1) as i64)
    }
}

/// The store after `upsert_handle`: the handle sequence moves on by one, and
/// the display name is replaced or a new handle is appended under the new
/// id; unchanged where no id is left.
pub open spec fn upsert_handle(
    m: StoreModel,
    address: Seq<char>,
    service: Seq<char>,
    display_name: Seq<char>,
    now: i64,
) -> StoreModel {
    let i = m.handle_key_index(address, service);
    let id = (m.last_handle_id + 1) as i64;
    if m.last_handle_id == i64::MAX {
        m
    } else if i >= 0 {
        StoreModel {
            handles: m.handles.update(i, HandleModel { display_name, ..m.handles[i] }),
            last_handle_id: id,
            ..m
        }
    } else {
        StoreModel {
            handles: m.handles.push(
                HandleModel { id, address, service, display_name, created_at: now },
            ),
            last_handle_id: id,
            ..m
        }
    }
}

pub open spec fn handle_row(h: HandleModel) -> HandleRowView {
    HandleRowView {
        id: h.id,
        address: h.address,
        service: h.service,
        display_name: h.display_name,
    }
}

/// All handles, ordered by display name, then address.
pub open spec fn list_handles(m: StoreModel) -> Seq<HandleRowView> {
    rank_sort::<HandleRow>(m.handles.map_values(|h: HandleModel| handle_row(h)))
}

/// The store after `upsert_chat`: title and kinds replaced, or a new chat appended.
pub open spec fn upsert_chat(
    m: StoreModel,
    guid: Seq<char>,
    title: Seq<char>,
    is_imessage: bool,
    is_group: bool,
    now: i64,
) -> StoreModel {
    let i = m.chat_index(guid);
    if i >= 0 {
        StoreModel {
            chats: m.chats.update(i, ChatModel { title, is_imessage, is_group, ..m.chats[i] }),
            ..m
        }
    } else {
        StoreModel {
            chats: m.chats.push(
                ChatModel {
                    guid,
                    title,
                    is_imessage,
                    is_group,
                    is_archived: false,
                    is_pinned: false,
                    pin_order: 0,
                    unread_count: 0,
                    last_message_date: 0,
                    last_message_preview: Seq::empty(),
                    created_at: now,
                },
            ),
            ..m
        }
    }
}

/// `s` with each value after its first occurrence left out.
pub open spec fn dedup(s: Seq<i64>) -> Seq<i64>
    decreases s.len(),
{
    if s.len() == 0 {
        s
    } else {
        let d = dedup(s.drop_last());
        if d.contains(s.last()) {
            d
        } else {
            d.push(s.last())
        }
    }
}

pub proof fn lemma_dedup(s: Seq<i64>)
    ensures
        dedup(s).no_duplicates(),
        forall|x: i64| #[trigger] dedup(s).contains(x) <==> s.contains(x),
    decreases s.len(),
{
    if s.len() > 0 {
        let t = s.drop_last();
        let l = s.last();
        lemma_dedup(t);
        let d = dedup(t);
        assert(dedup(s) == if d.contains(l) { d } else { d.push(l) });
        assert forall|x: i64| #[trigger] dedup(s).contains(x) <==> s.contains(x) by {
            if d.contains(x) {
                let k = choose|k: int| 0 <= k < d.len() && d[k] == x;
                assert(d.push(l)[k] == x);
                assert(t.contains(x));
                let j = choose|j: int| 0 <= j < t.len() && t[j] == x;
                assert(s[j] == x);
            }
            if x == l {
                assert(s[s.len() - 1] == x);
                assert(d.push(l)[d.len() as int] == x);
            }
            if s.contains(x) && x != l {
                let j = choose|j: int| 0 <= j < s.len() && s[j] == x;
                assert(t[j] == x);
                assert(t.contains(x));
            }
            if !d.contains(l) && d.push(l).contains(x) && x != l {
                let k = choose|k: int| 0 <= k < d.len() + 1 && d.push(l)[k] == x;
                assert(d[k] == x);
            }
        }
        if !d.contains(l) {
            assert forall|i: int, j: int| 0 <= i < d.len() + 1 && 0 <= j < d.len() + 1 && i != j implies d.push(l)[i] != d.push(l)[j] by {
                if i == d.len() {
                    assert(d[j] != l);
                } else if j == d.len() {
                    assert(d[i] != l);
                }
            }
        }
    }
}

pub proof fn lemma_filter_props<A>(s: Seq<A>, p: spec_fn(A) -> bool)
    ensures
        forall|k: int| 0 <= k < s.filter(p).len() ==> p(#[trigger] s.filter(p)[k]) && s.contains(s.filter(p)[k]),
        s.no_duplicates() ==> s.filter(p).no_duplicates(),
    decreases s.len(),
{
    reveal(Seq::filter);
    if s.len() > 0 {
        let t = s.drop_last();
        lemma_filter_props(t, p);
        let ft = t.filter(p);
        let f = s.filter(p);
        assert forall|k: int| 0 <= k < f.len() implies p(#[trigger] f[k]) && s.contains(f[k]) by {
            if k < ft.len() {
                assert(f[k] == ft[k]);
                let j = choose|j: int| 0 <= j < t.len() && t[j] == ft[k];
                assert(s[j] == t[j]);
            } else {
                assert(f[k] == s.last());
                assert(s[s.len() - 1] == s.last());
            }
        }
        if s.no_duplicates() {
            assert(t.no_duplicates()) by {
                assert forall|i: int, j: int| 0 <= i < t.len() && 0 <= j < t.len() && i != j implies t[i] != t[j] by {
                    assert(t[i] == s[i] && t[j] == s[j]);
                }
            }
            if p(s.last()) {
                assert forall|k: int| 0 <= k < ft.len() implies #[trigger] ft[k] != s.last() by {
                    let j = choose|j: int| 0 <= j < t.len() && t[j] == ft[k];
                    assert(s[j] == t[j]);
                }
                assert(f =~= ft.push(s.last()));
            }
        }
    }
}

/// A relation that holds between any two elements of `s` at different places
/// holds between any two elements of a filter of `s` at different places.
pub proof fn lemma_filter_pairwise<A>(s: Seq<A>, p: spec_fn(A) -> bool, r: spec_fn(A, A) -> bool)
    requires
        forall|i: int, j: int| 0 <= i < s.len() && 0 <= j < s.len() && i != j ==> #[trigger] r(s[i], s[j]),
    ensures
        forall|i: int, j: int|
            0 <= i < s.filter(p).len() && 0 <= j < s.filter(p).len() && i != j ==> #[trigger] r(
                s.filter(p)[i],
                s.filter(p)[j],
            ),
    decreases s.len(),
{
    reveal(Seq::filter);
    if s.len() > 0 {
        let t = s.drop_last();
        let l = s.last();
        assert forall|i: int, j: int| 0 <= i < t.len() && 0 <= j < t.len() && i != j implies #[trigger] r(t[i], t[j]) by {
            assert(t[i] == s[i] && t[j] == s[j]);
        }
        lemma_filter_pairwise(t, p, r);
        lemma_filter_props(t, p);
        let ft = t.filter(p);
        let f = s.filter(p);
        if p(l) {
            assert(f == ft.push(l));
            assert forall|i: int, j: int| 0 <= i < f.len() && 0 <= j < f.len() && i != j implies #[trigger] r(f[i], f[j]) by {
                if i < ft.len() && j < ft.len() {
                    assert(f[i] == ft[i] && f[j] == ft[j]);
                } else if i < ft.len() {
                    assert(f[i] == ft[i] && f[j] == l);
                    let k = choose|k: int| 0 <= k < t.len() && t[k] == ft[i];
                    assert(s[k] == ft[i] && s[s.len() - 1] == l);
                } else {
                    assert(f[j] == ft[j] && f[i] == l);
                    let k = choose|k: int| 0 <= k < t.len() && t[k] == ft[j];
                    assert(s[k] == ft[j] && s[s.len() - 1] == l);
                }
            }
        } else {
            assert(f == ft);
        }
    }
}

/// Whether `set_chat_participants` is accepted: with no handles there is
/// nothing to check; otherwise the chat and every handle must exist.
pub open spec fn participants_accepted(m: StoreModel, chat: Seq<char>, ids: Seq<i64>) -> bool {
    ids.len() == 0 || (m.has_chat(chat) && forall|k: int|
        0 <= k < ids.len() ==> m.has_handle(#[trigger] ids[k]))
}

/// The store after `set_chat_participants`: the chat's members are replaced
/// by the given handles, each once, in the given order.
pub open spec fn set_participants(m: StoreModel, chat: Seq<char>, ids: Seq<i64>) -> StoreModel {
    if participants_accepted(m, chat, ids) {
        StoreModel {
            members: m.members.filter(|x: MemberModel| x.chat_guid != chat) + dedup(ids).map_values(
                |h: i64| MemberModel { chat_guid: chat, handle_id: h },
            ),
            ..m
        }
    } else {
        m
    }
}

/// The store after `set_chat_pin`.
pub open spec fn set_pin(m: StoreModel, chat: Seq<char>, is_pinned: bool, order: i32) -> StoreModel {
    let i = m.chat_index(chat);
    if i >= 0 {
        StoreModel {
            chats: m.chats.update(i, ChatModel { is_pinned, pin_order: order, ..m.chats[i] }),
            ..m
        }
    } else {
        m
    }
}

/// The store after `set_chat_archived`.
pub open spec fn set_archived(m: StoreModel, chat: Seq<char>, is_archived: bool) -> StoreModel {
    let i = m.chat_index(chat);
    if i >= 0 {
        StoreModel { chats: m.chats.update(i, ChatModel { is_archived, ..m.chats[i] }), ..m }
    } else {
        m
    }
}

/// Whether `insert_message` is accepted: the chat exists, and so does the sender's handle.
pub open spec fn message_accepted(m: StoreModel, r: MessageRowView) -> bool {
    &&& m.has_chat(r.chat_guid)
    &&& r.handle_id matches Some(h) ==> m.has_handle(h)
}

pub open spec fn message_of(r: MessageRowView) -> MessageModel {
    MessageModel {
        guid: r.guid,
        chat_guid: r.chat_guid,
        handle_id: r.handle_id,
        text: r.text,
        subject: r.subject,
        is_from_me: r.is_from_me,
        date: r.date,
        date_read: r.date_read,
        date_edited: r.date_edited,
        is_unsent: r.is_unsent,
        has_attachments: r.has_attachments,
        thread_origin_guid: r.thread_origin_guid,
    }
}

/// A count raised by one, held at the largest `i64`.
pub open spec fn bump(n: i64) -> i64 {
    if n < i64::MAX {
        (n + 1) as i64
    } else {
        n
    }
}

/// The chat after a message `r` was filed in it.
pub open spec fn chat_after_message(c: ChatModel, r: MessageRowView) -> ChatModel {
    ChatModel {
        last_message_date: if c.last_message_date >= r.date {
            c.last_message_date
        } else {
            r.date
        },
        last_message_preview: r.text,
        unread_count: if r.is_from_me {
            c.unread_count
        } else {
            bump(c.unread_count)
        },
        ..c
    }
}

/// The store after `insert_message`: a message with the same guid and its
/// reactions are removed, the new one is appended, and its chat takes its
/// date (where later), its text as preview and, for a received message,
/// one more unread.
pub open spec fn insert_message(m: StoreModel, r: MessageRowView) -> StoreModel {
    if message_accepted(m, r) {
        let old = m.message_index(r.guid);
        let ci = m.chat_index(r.chat_guid);
        StoreModel {
            messages: if old >= 0 {
                m.messages.remove(old)
            } else {
                m.messages
            }.push(message_of(r)),
            reactions: if old >= 0 {
                m.reactions.filter(|x: ReactionModel| x.message_guid != r.guid)
            } else {
                m.reactions
            },
            chats: m.chats.update(ci, chat_after_message(m.chats[ci], r)),
            ..m
        }
    } else {
        m
    }
}

/// The message after `mark_chat_read` of `chat` at `now`.
pub open spec fn read_message(x: MessageModel, chat: Seq<char>, now: i64) -> MessageModel {
    if x.chat_guid == chat && !x.is_from_me && x.date_read == 0 {
        MessageModel { date_read: now, ..x }
    } else {
        x
    }
}

/// The store after `mark_chat_read`: the chat's unread received messages are
/// dated read, and its unread count is zero.
pub open spec fn mark_chat_read(m: StoreModel, chat: Seq<char>, now: i64) -> StoreModel {
    let i = m.chat_index(chat);
    StoreModel {
        messages: m.messages.map_values(|x: MessageModel| read_message(x, chat, now)),
        chats: if i >= 0 {
            m.chats.update(i, ChatModel { unread_count: 0, ..m.chats[i] })
        } else {
            m.chats
        },
        ..m
    }
}

/// The store after `edit_message`.
pub open spec fn edit_message(m: StoreModel, guid: Seq<char>, text: Seq<char>, now: i64) -> StoreModel {
    let i = m.message_index(guid);
    if i >= 0 {
        StoreModel {
            messages: m.messages.update(i, MessageModel { text, date_edited: now, ..m.messages[i] }),
            ..m
        }
    } else {
        m
    }
}

/// The store after `unsend_message`.
pub open spec fn unsend_message(m: StoreModel, guid: Seq<char>) -> StoreModel {
    let i = m.message_index(guid);
    if i >= 0 {
        StoreModel {
            messages: m.messages.update(
                i,
                MessageModel { is_unsent: true, text: Seq::empty(), ..m.messages[i] },
            ),
            ..m
        }
    } else {
        m
    }
}

/// The store after `add_reaction`: where the message exists, the reaction is
/// appended, replacing one of the same handle and type; without a handle none
/// is replaced.
pub open spec fn add_reaction(
    m: StoreModel,
    message_guid: Seq<char>,
    handle_id: Option<i64>,
    is_from_me: bool,
    reaction: Seq<char>,
    now: i64,
) -> StoreModel {
    if m.has_message(message_guid) {
        let r = ReactionModel {
            message_guid,
            handle_id,
            is_from_me,
            reaction_type: reaction,
            timestamp: now,
        };
        let old = match handle_id {
            Some(h) => m.reaction_index(message_guid, h, reaction),
            None => -1,
        };
        StoreModel {
            reactions: if old >= 0 {
                m.reactions.remove(old)
            } else {
                m.reactions
            }.push(r),
            ..m
        }
    } else {
        m
    }
}

/// Two reactions that `add_reaction` would not keep side by side.
pub open spec fn reactions_clash(a: ReactionModel, b: ReactionModel) -> bool {
    a.handle_id is Some && a.message_guid == b.message_guid && a.handle_id == b.handle_id
        && a.reaction_type == b.reaction_type
}

pub proof fn lemma_insert_message_wf(s0: StoreModel, r: MessageRowView)
    requires
        s0.wf(),
    ensures
        insert_message(s0, r).wf(),
{
    let s1 = insert_message(s0, r);
    if message_accepted(s0, r) {
        let oi = s0.message_index(r.guid);
        let ci = s0.chat_index(r.chat_guid);
        lemma_chats_kept(s0, s1);
        lemma_handles_kept(s0, s1);
        let ms0 = if oi >= 0 { s0.messages.remove(oi) } else { s0.messages };
        assert(s1.messages == ms0.push(message_of(r)));
        assert forall|i: int| 0 <= i < ms0.len() implies #[trigger] ms0[i].guid != r.guid
            && exists|j: int| 0 <= j < s0.messages.len() && s0.messages[j] == ms0[i] by {
            if oi >= 0 {
                if i < oi {
                    assert(ms0[i] == s0.messages[i]);
                } else {
                    assert(ms0[i] == s0.messages[i + 1]);
                }
            } else {
                assert(ms0[i] == s0.messages[i]);
            }
        }
        assert forall|i: int, j: int|
            0 <= i < s1.messages.len() && 0 <= j < s1.messages.len() && i != j implies #[trigger] s1.messages[i].guid
            != #[trigger] s1.messages[j].guid by {
            if i < ms0.len() && j < ms0.len() {
                if oi >= 0 {
                    let a = if i < oi { i } else { i + 1 };
                    let b = if j < oi { j } else { j + 1 };
                    assert(ms0[i] == s0.messages[a] && ms0[j] == s0.messages[b]);
                } else {
                    assert(ms0[i] == s0.messages[i] && ms0[j] == s0.messages[j]);
                }
            } else if i < ms0.len() {
                assert(s1.messages[i] == ms0[i]);
            } else {
                assert(s1.messages[j] == ms0[j]);
            }
        }
        assert forall|i: int| 0 <= i < s1.messages.len() implies s1.has_chat(#[trigger] s1.messages[i].chat_guid)
            && (s1.messages[i].handle_id matches Some(h) ==> s1.has_handle(h)) by {
            if i < ms0.len() {
                assert(s1.messages[i] == ms0[i]);
                let j = choose|j: int| 0 <= j < s0.messages.len() && s0.messages[j] == ms0[i];
                assert(s0.has_chat(s0.messages[j].chat_guid));
            }
        }
        let last = s1.messages.len() - 1;
        assert(s1.messages[last].guid == r.guid);
        let rpred = |x: ReactionModel| x.message_guid != r.guid;
        let clash_free = |a: ReactionModel, b: ReactionModel| !reactions_clash(a, b);
        assert forall|i: int, j: int|
            0 <= i < s0.reactions.len() && 0 <= j < s0.reactions.len() && i != j implies #[trigger] clash_free(
            s0.reactions[i],
            s0.reactions[j],
        ) by {
            if s0.reactions[i].handle_id is Some {
            }
        }
        lemma_filter_props(s0.reactions, rpred);
        lemma_filter_pairwise(s0.reactions, rpred, clash_free);
        assert forall|i: int| 0 <= i < s1.reactions.len() implies s1.has_message(#[trigger] s1.reactions[i].message_guid) by {
            let g = s1.reactions[i].message_guid;
            if g == r.guid {
                assert(s1.messages[last].guid == g);
            } else {
                let j: int = if oi >= 0 {
                    choose|j: int| 0 <= j < s0.reactions.len() && s0.reactions[j] == s1.reactions[i]
                } else {
                    i
                };
                assert(s0.reactions[j] == s1.reactions[i]);
                assert(s0.has_message(g));
                let k = choose|k: int| 0 <= k < s0.messages.len() && #[trigger] s0.messages[k].guid == g;
                if oi >= 0 {
                    assert(k != oi);
                    let q = if k < oi { k } else { k - 1 };
                    assert(ms0[q] == s0.messages[k]);
                    assert(s1.messages[q] == ms0[q]);
                } else {
                    assert(s1.messages[k] == s0.messages[k]);
                }
            }
        }
        assert forall|i: int, j: int|
            0 <= i < s1.reactions.len() && 0 <= j < s1.reactions.len() && i != j
                && #[trigger] s1.reactions[i].handle_id is Some implies !(
            s1.reactions[i].message_guid == #[trigger] s1.reactions[j].message_guid
                && s1.reactions[i].handle_id == s1.reactions[j].handle_id
                && s1.reactions[i].reaction_type == s1.reactions[j].reaction_type) by {
            if oi >= 0 {
                assert(clash_free(s1.reactions[i], s1.reactions[j]));
            } else {
                assert(s1.reactions[i] == s0.reactions[i]);
            }
        }
    }
}

/// Replacing a message by one with the same guid, chat and sender keeps the store consistent.
pub proof fn lemma_message_update_wf(m: StoreModel, i: int, x: MessageModel)
    requires
        m.wf(),
        0 <= i < m.messages.len(),
        x.guid == m.messages[i].guid,
        x.chat_guid == m.messages[i].chat_guid,
        x.handle_id == m.messages[i].handle_id,
    ensures
        (StoreModel { messages: m.messages.update(i, x), ..m }).wf(),
{
    let s1 = StoreModel { messages: m.messages.update(i, x), ..m };
    lemma_keys_kept(m, s1);
    assert forall|j: int| 0 <= j < s1.messages.len() implies s1.has_chat(#[trigger] s1.messages[j].chat_guid)
        && (s1.messages[j].handle_id matches Some(h) ==> s1.has_handle(h)) by {
        assert(m.has_chat(m.messages[j].chat_guid));
    }
}

/// Replacing a chat by one with the same guid keeps the store consistent.
pub proof fn lemma_chat_update_wf(m: StoreModel, i: int, c: ChatModel)
    requires
        m.wf(),
        0 <= i < m.chats.len(),
        c.guid == m.chats[i].guid,
    ensures
        (StoreModel { chats: m.chats.update(i, c), ..m }).wf(),
{
    let s1 = StoreModel { chats: m.chats.update(i, c), ..m };
    lemma_keys_kept(m, s1);
}

pub proof fn lemma_add_reaction_wf(
    m: StoreModel,
    message_guid: Seq<char>,
    handle_id: Option<i64>,
    is_from_me: bool,
    reaction: Seq<char>,
    now: i64,
)
    requires
        m.wf(),
    ensures
        add_reaction(m, message_guid, handle_id, is_from_me, reaction, now).wf(),
{
    let s1 = add_reaction(m, message_guid, handle_id, is_from_me, reaction, now);
    if m.has_message(message_guid) {
        lemma_keys_kept(m, s1);
        let oi = match handle_id {
            Some(h) => m.reaction_index(message_guid, h, reaction),
            None => -1,
        };
        let mid = if oi >= 0 { m.reactions.remove(oi) } else { m.reactions };
        assert(s1.reactions == mid.push(ReactionModel { message_guid, handle_id, is_from_me, reaction_type: reaction, timestamp: now }));
        assert forall|i: int| 0 <= i < mid.len() implies exists|j: int| 0 <= j < m.reactions.len() && m.reactions[j] == #[trigger] mid[i]
            && (oi >= 0 ==> j != oi) by {
            if oi >= 0 {
                if i < oi {
                    assert(mid[i] == m.reactions[i]);
                } else {
                    assert(mid[i] == m.reactions[i + 1]);
                }
            } else {
                assert(mid[i] == m.reactions[i]);
            }
        }
        assert forall|i: int| 0 <= i < s1.reactions.len() implies s1.has_message(#[trigger] s1.reactions[i].message_guid) by {
            if i < mid.len() {
                assert(s1.reactions[i] == mid[i]);
                let j = choose|j: int| 0 <= j < m.reactions.len() && m.reactions[j] == mid[i] && (oi >= 0 ==> j != oi);
                assert(m.has_message(m.reactions[j].message_guid));
            }
        }
        assert forall|i: int, j: int|
            0 <= i < s1.reactions.len() && 0 <= j < s1.reactions.len() && i != j
                && #[trigger] s1.reactions[i].handle_id is Some implies !(
            s1.reactions[i].message_guid == #[trigger] s1.reactions[j].message_guid
                && s1.reactions[i].handle_id == s1.reactions[j].handle_id
                && s1.reactions[i].reaction_type == s1.reactions[j].reaction_type) by {
            if i < mid.len() && j < mid.len() {
                assert(s1.reactions[i] == mid[i] && s1.reactions[j] == mid[j]);
                if oi >= 0 {
                    let a = if i < oi { i } else { i + 1 };
                    let b = if j < oi { j } else { j + 1 };
                    assert(mid[i] == m.reactions[a] && mid[j] == m.reactions[b]);
                } else {
                    assert(mid[i] == m.reactions[i] && mid[j] == m.reactions[j]);
                }
            } else if i < mid.len() {
                assert(s1.reactions[i] == mid[i]);
                let a = choose|a: int| 0 <= a < m.reactions.len() && m.reactions[a] == mid[i] && (oi >= 0 ==> a != oi);
                if s1.reactions[i].message_guid == message_guid && s1.reactions[i].handle_id == handle_id
                    && s1.reactions[i].reaction_type == reaction {
                    assert(m.has_reaction(message_guid, handle_id->0, reaction));
                }
            } else {
                assert(s1.reactions[j] == mid[j]);
                let b = choose|b: int| 0 <= b < m.reactions.len() && m.reactions[b] == mid[j] && (oi >= 0 ==> b != oi);
                if s1.reactions[i].message_guid == s1.reactions[j].message_guid
                    && s1.reactions[i].handle_id == s1.reactions[j].handle_id
                    && s1.reactions[i].reaction_type == s1.reactions[j].reaction_type {
                    assert(m.reactions[b].message_guid == message_guid);
                    assert(m.has_reaction(message_guid, handle_id->0, reaction));
                }
            }
        }
    }
}

pub proof fn lemma_kv_set_wf(m: StoreModel, k: Seq<char>, v: Seq<char>)
    requires
        m.wf(),
    ensures
        kv_set(m, k, v).wf(),
{
    let s1 = kv_set(m, k, v);
    lemma_keys_kept(m, s1);
    if !m.has_key(k) {
        assert forall|i: int| 0 <= i < m.kv.len() implies #[trigger] m.kv[i].key != k by {}
    }
}

/// `b` keeps every chat guid and handle id of `a` at its place.
pub open spec fn keeps_refs(a: StoreModel, b: StoreModel) -> bool {
    &&& a.chats.len() <= b.chats.len()
    &&& forall|i: int| 0 <= i < a.chats.len() ==> #[trigger] b.chats[i].guid == a.chats[i].guid
    &&& a.handles.len() <= b.handles.len()
    &&& forall|i: int| 0 <= i < a.handles.len() ==> #[trigger] b.handles[i].id == a.handles[i].id
}

pub proof fn lemma_keeps_refs(a: StoreModel, b: StoreModel)
    requires
        keeps_refs(a, b),
    ensures
        forall|g: Seq<char>| a.has_chat(g) ==> #[trigger] b.has_chat(g),
        forall|h: i64| a.has_handle(h) ==> #[trigger] b.has_handle(h),
{
    lemma_chats_kept(a, b);
    lemma_handles_kept(a, b);
}

pub proof fn lemma_keeps_refs_trans(a: StoreModel, b: StoreModel, c: StoreModel)
    requires
        keeps_refs(a, b),
        keeps_refs(b, c),
    ensures
        keeps_refs(a, c),
{
}

/// Filing a handle keeps the store consistent.
pub proof fn lemma_upsert_handle_wf(m: StoreModel, a: Seq<char>, s: Seq<char>, d: Seq<char>, now: i64)
    requires
        m.wf(),
    ensures
        upsert_handle(m, a, s, d, now).wf(),
{
    let m1 = upsert_handle(m, a, s, d, now);
    let i = m.handle_key_index(a, s);
    if m.last_handle_id < i64::MAX {
        lemma_keys_kept(m, m1);
        if i >= 0 {
            assert forall|j: int| 0 <= j < m1.handles.len() implies 1 <= #[trigger] m1.handles[j].id
                <= m1.last_handle_id by {
                assert(m1.handles[j].id == m.handles[j].id);
            }
            assert forall|x: int, y: int|
                #![trigger m1.handles[x], m1.handles[y]]
                0 <= x < m1.handles.len() && 0 <= y < m1.handles.len() && x != y implies {
                &&& m1.handles[x].id != m1.handles[y].id
                &&& (m1.handles[x].address != m1.handles[y].address || m1.handles[x].service
                    != m1.handles[y].service)
            } by {
                assert(m1.handles[x].id == m.handles[x].id && m1.handles[x].address == m.handles[x].address
                    && m1.handles[x].service == m.handles[x].service);
                assert(m1.handles[y].id == m.handles[y].id && m1.handles[y].address == m.handles[y].address
                    && m1.handles[y].service == m.handles[y].service);
            }
        } else {
            assert forall|j: int| 0 <= j < m1.handles.len() implies 1 <= #[trigger] m1.handles[j].id
                <= m1.last_handle_id by {
                if j < m.handles.len() {
                    assert(m1.handles[j] == m.handles[j]);
                }
            }
            assert forall|x: int, y: int|
                #![trigger m1.handles[x], m1.handles[y]]
                0 <= x < m1.handles.len() && 0 <= y < m1.handles.len() && x != y implies {
                &&& m1.handles[x].id != m1.handles[y].id
                &&& (m1.handles[x].address != m1.handles[y].address || m1.handles[x].service
                    != m1.handles[y].service)
            } by {
                if x < m.handles.len() {
                    assert(m1.handles[x] == m.handles[x]);
                }
                if y < m.handles.len() {
                    assert(m1.handles[y] == m.handles[y]);
                }
                if x == m.handles.len() {
                    assert(!(m.handles[y].address == a && m.handles[y].service == s));
                }
                if y == m.handles.len() {
                    assert(!(m.handles[x].address == a && m.handles[x].service == s));
                }
            }
        }
    }
}

pub proof fn lemma_upsert_handle_refs(m: StoreModel, a: Seq<char>, s: Seq<char>, d: Seq<char>, now: i64)
    ensures
        keeps_refs(m, upsert_handle(m, a, s, d, now)),
        upsert_handle_result(m, a, s) matches Ok(id) ==> upsert_handle(m, a, s, d, now).has_handle(id),
{
    let m1 = upsert_handle(m, a, s, d, now);
    let i = m.handle_key_index(a, s);
    if m.last_handle_id == i64::MAX {
    } else if i >= 0 {
        assert(m1.handles[i].id == m.handles[i].id);
    } else {
        assert(m1.handles[m.handles.len() as int].id == m1.last_handle_id);
    }
}

pub proof fn lemma_upsert_chat_refs(m: StoreModel, g: Seq<char>, t: Seq<char>, im: bool, gr: bool, now: i64)
    ensures
        keeps_refs(m, upsert_chat(m, g, t, im, gr, now)),
        upsert_chat(m, g, t, im, gr, now).has_chat(g),
{
    let m1 = upsert_chat(m, g, t, im, gr, now);
    let i = m.chat_index(g);
    if i >= 0 {
        assert(m1.chats[i].guid == g);
    } else {
        assert(m1.chats[m.chats.len() as int].guid == g);
    }
}

pub proof fn lemma_small_steps_refs(m: StoreModel, g: Seq<char>, ids: Seq<i64>, p: bool, o: i32, r: MessageRowView)
    ensures
        keeps_refs(m, set_participants(m, g, ids)),
        keeps_refs(m, set_pin(m, g, p, o)),
        keeps_refs(m, insert_message(m, r)),
{
}

/// One step of filing the sample handles: stops at the first refusal.
pub open spec fn seed_handle_step(
    st: (StoreModel, Result<Seq<i64>, StorageError>),
    address: Seq<char>,
    service: Seq<char>,
    name: Seq<char>,
    now: i64,
) -> (StoreModel, Result<Seq<i64>, StorageError>) {
    match st.1 {
        Err(e) => st,
        Ok(ids) => match upsert_handle_result(st.0, address, service) {
            Err(e) => (st.0, Err(e)),
            Ok(id) => (upsert_handle(st.0, address, service, name, now), Ok(ids.push(id))),
        },
    }
}

/// Files the five sample handles in turn, collecting their ids.
pub open spec fn seed_handles(m: StoreModel, now: i64) -> (StoreModel, Result<Seq<i64>, StorageError>) {
    let s0 = (m, Ok(Seq::<i64>::empty()));
    let s1 = seed_handle_step(s0, "+15555550123"@, "iMessage"@, "Nyx"@, now);
    let s2 = seed_handle_step(s1, "kay@example.com"@, "iMessage"@, "Kay"@, now);
    let s3 = seed_handle_step(s2, "+15555550456"@, "SMS"@, "Rho"@, now);
    let s4 = seed_handle_step(s3, "+15555550789"@, "iMessage"@, "Jules"@, now);
    seed_handle_step(s4, "sam@example.com"@, "iMessage"@, "Sam"@, now)
}

/// The four sample chats with their members; the first is pinned.
pub open spec fn seed_chats(m: StoreModel, h: Seq<i64>, now: i64) -> StoreModel {
    let m1 = upsert_chat(m, "chat-nyx"@, "Nyx"@, true, false, now);
    let m2 = set_participants(m1, "chat-nyx"@, seq![h[0]]);
    let m3 = set_pin(m2, "chat-nyx"@, true, 0);
    let m4 = upsert_chat(m3, "chat-kay"@, "Kay"@, true, false, now);
    let m5 = set_participants(m4, "chat-kay"@, seq![h[1]]);
    let m6 = upsert_chat(m5, "chat-rho"@, "Rho"@, false, false, now);
    let m7 = set_participants(m6, "chat-rho"@, seq![h[2]]);
    let m8 = upsert_chat(m7, "chat-group"@, "Friday roll"@, true, true, now);
    set_participants(m8, "chat-group"@, seq![h[3], h[4]])
}

/// Sample message number `i`; a received one is read as it arrives.
pub open spec fn seed_message(i: nat, chat: Seq<char>, handle: Option<i64>, text: Seq<char>, me: bool, date: i64) -> MessageRowView {
    MessageRowView {
        guid: "seed-msg-"@ + decimal(i),
        chat_guid: chat,
        handle_id: handle,
        sender_address: Seq::empty(),
        sender_display_name: Seq::empty(),
        text,
        subject: Seq::empty(),
        is_from_me: me,
        date,
        date_read: if me { 0 } else { date },
        date_edited: 0,
        is_unsent: false,
        has_attachments: false,
        thread_origin_guid: Seq::empty(),
    }
}

/// The nine sample messages, filed in turn, each dated some seconds before
/// `now` (the subtraction wraps as `i64` arithmetic does).
pub open spec fn seed_messages(m: StoreModel, h: Seq<i64>, now: i64) -> StoreModel {
    let m1 = insert_message(m, seed_message(0, "chat-nyx"@, Some(h[0]), "hey you"@, false, now.wrapping_sub(3600)));
    let m2 = insert_message(m1, seed_message(1, "chat-nyx"@, None, "hey! sorry was heads-down"@, true, now.wrapping_sub(3500)));
    let m3 = insert_message(m2, seed_message(2, "chat-nyx"@, Some(h[0]), "no worries \u{2014} dinner still on?"@, false, now.wrapping_sub(900)));
    let m4 = insert_message(m3, seed_message(3, "chat-kay"@, Some(h[1]), "sending the doc in a sec"@, false, now.wrapping_sub(7200)));
    let m5 = insert_message(m4, seed_message(4, "chat-kay"@, None, "thanks \u{1F64F}"@, true, now.wrapping_sub(7100)));
    let m6 = insert_message(m5, seed_message(5, "chat-rho"@, Some(h[2]), "can you pick up milk"@, false, now.wrapping_sub(60)));
    let m7 = insert_message(m6, seed_message(6, "chat-group"@, Some(h[3]), "bar at 7?"@, false, now.wrapping_sub(300)));
    let m8 = insert_message(m7, seed_message(7, "chat-group"@, Some(h[4]), "i'm in"@, false, now.wrapping_sub(250)));
    insert_message(m8, seed_message(8, "chat-group"@, None, "same"@, true, now.wrapping_sub(240)))
}

/// The store after `seed_demo_data` at `now`: unchanged where it holds a
/// chat; otherwise the sample handles, chats and messages, stopping at the
/// first handle that cannot be filed.
pub open spec fn seed_demo(m: StoreModel, now: i64) -> StoreModel {
    if m.chats.len() > 0 {
        m
    } else {
        let (m1, r) = seed_handles(m, now);
        match r {
            Err(_) => m1,
            Ok(h) => seed_messages(seed_chats(m1, h, now), h, now),
        }
    }
}

/// What `seed_demo_data` returns at `now`.
pub open spec fn seed_demo_result(m: StoreModel, now: i64) -> Result<(), StorageError> {
    if m.chats.len() > 0 {
        Ok(())
    } else {
        match seed_handles(m, now).1 {
            Err(e) => Err(e),
            Ok(_) => Ok(()),
        }
    }
}

/// Whether the member row `x` is one of the store's.
pub open spec fn has_member(m: StoreModel, x: MemberModel) -> bool {
    exists|i: int| 0 <= i < m.members.len() && #[trigger] m.members[i] == x
}

/// A loaded chat joins the store where its guid is new.
pub proof fn lemma_load_chat_wf(m: StoreModel, c: ChatModel)
    requires
        m.wf(),
        !m.has_chat(c.guid),
    ensures
        (StoreModel { chats: m.chats.push(c), ..m }).wf(),
{
    let s1 = StoreModel { chats: m.chats.push(c), ..m };
    lemma_keys_kept(m, s1);
    assert forall|i: int, j: int|
        0 <= i < s1.chats.len() && 0 <= j < s1.chats.len() && i != j implies #[trigger] s1.chats[i].guid
        != #[trigger] s1.chats[j].guid by {
        if i < m.chats.len() && j < m.chats.len() {
            assert(s1.chats[i] == m.chats[i] && s1.chats[j] == m.chats[j]);
        } else if i < m.chats.len() {
            assert(s1.chats[i] == m.chats[i]);
        } else {
            assert(s1.chats[j] == m.chats[j]);
        }
    }
}

/// The store after a loaded handle joined it: the handle sequence covers its id.
pub open spec fn with_handle(m: StoreModel, h: HandleModel) -> StoreModel {
    StoreModel {
        handles: m.handles.push(h),
        last_handle_id: if h.id > m.last_handle_id { h.id } else { m.last_handle_id },
        ..m
    }
}

/// A loaded handle joins the store where its id is positive and its id and
/// its address on its service are new.
pub proof fn lemma_load_handle_wf(m: StoreModel, h: HandleModel)
    requires
        m.wf(),
        h.id >= 1,
        !m.has_handle(h.id),
        !m.has_handle_key(h.address, h.service),
    ensures
        with_handle(m, h).wf(),
{
    let s1 = with_handle(m, h);
    lemma_keys_kept(m, s1);
    assert forall|i: int, j: int|
        #![trigger s1.handles[i], s1.handles[j]]
        0 <= i < s1.handles.len() && 0 <= j < s1.handles.len() && i != j implies {
        &&& s1.handles[i].id != s1.handles[j].id
        &&& (s1.handles[i].address != s1.handles[j].address || s1.handles[i].service != s1.handles[j].service)
    } by {
        if i < m.handles.len() && j < m.handles.len() {
            assert(s1.handles[i] == m.handles[i] && s1.handles[j] == m.handles[j]);
        } else if i < m.handles.len() {
            assert(s1.handles[i] == m.handles[i]);
            assert(m.handles[i].id != h.id);
        } else {
            assert(s1.handles[j] == m.handles[j]);
            assert(m.handles[j].id != h.id);
        }
    }
    assert forall|i: int| 0 <= i < s1.handles.len() implies 1 <= #[trigger] s1.handles[i].id <= s1.last_handle_id by {
        if i < m.handles.len() {
            assert(s1.handles[i] == m.handles[i]);
        }
    }
}

/// Raising the handle sequence keeps the store consistent.
pub proof fn lemma_handle_sequence_wf(m: StoreModel, seq: i64)
    requires
        m.wf(),
        seq >= m.last_handle_id,
    ensures
        (StoreModel { last_handle_id: seq, ..m }).wf(),
{
    let s1 = StoreModel { last_handle_id: seq, ..m };
    lemma_keys_kept(m, s1);
}

/// A loaded membership joins the store where its chat and handle exist and
/// it is new.
pub proof fn lemma_load_member_wf(m: StoreModel, x: MemberModel)
    requires
        m.wf(),
        m.has_chat(x.chat_guid),
        m.has_handle(x.handle_id),
        !has_member(m, x),
    ensures
        (StoreModel { members: m.members.push(x), ..m }).wf(),
{
    let s1 = StoreModel { members: m.members.push(x), ..m };
    lemma_keys_kept(m, s1);
    assert forall|i: int, j: int|
        0 <= i < s1.members.len() && 0 <= j < s1.members.len() && i != j implies #[trigger] s1.members[i]
        != #[trigger] s1.members[j] by {
        if i < m.members.len() && j < m.members.len() {
            assert(s1.members[i] == m.members[i] && s1.members[j] == m.members[j]);
        } else if i < m.members.len() {
            assert(s1.members[i] == m.members[i]);
        } else {
            assert(s1.members[j] == m.members[j]);
        }
    }
    assert forall|i: int| 0 <= i < s1.members.len() implies s1.has_chat(#[trigger] s1.members[i].chat_guid)
        && s1.has_handle(s1.members[i].handle_id) by {
        if i < m.members.len() {
            assert(s1.members[i] == m.members[i]);
        }
    }
}

/// A loaded message joins the store where its chat and sender exist and its
/// guid is new.
pub proof fn lemma_load_message_wf(m: StoreModel, x: MessageModel)
    requires
        m.wf(),
        m.has_chat(x.chat_guid),
        x.handle_id matches Some(h) ==> m.has_handle(h),
        !m.has_message(x.guid),
    ensures
        (StoreModel { messages: m.messages.push(x), ..m }).wf(),
{
    let s1 = StoreModel { messages: m.messages.push(x), ..m };
    lemma_keys_kept(m, s1);
    assert forall|i: int, j: int|
        0 <= i < s1.messages.len() && 0 <= j < s1.messages.len() && i != j implies #[trigger] s1.messages[i].guid
        != #[trigger] s1.messages[j].guid by {
        if i < m.messages.len() && j < m.messages.len() {
            assert(s1.messages[i] == m.messages[i] && s1.messages[j] == m.messages[j]);
        } else if i < m.messages.len() {
            assert(s1.messages[i] == m.messages[i]);
        } else {
            assert(s1.messages[j] == m.messages[j]);
        }
    }
    assert forall|i: int| 0 <= i < s1.messages.len() implies s1.has_chat(#[trigger] s1.messages[i].chat_guid)
        && (s1.messages[i].handle_id matches Some(h) ==> s1.has_handle(h)) by {
        if i < m.messages.len() {
            assert(s1.messages[i] == m.messages[i]);
        }
    }
}

/// A loaded reaction joins the store where its message exists and, where it
/// has a handle, no reaction of that handle and type to that message does.
pub proof fn lemma_load_reaction_wf(m: StoreModel, x: ReactionModel)
    requires
        m.wf(),
        m.has_message(x.message_guid),
        x.handle_id matches Some(h) ==> !m.has_reaction(x.message_guid, h, x.reaction_type),
    ensures
        (StoreModel { reactions: m.reactions.push(x), ..m }).wf(),
{
    let s1 = StoreModel { reactions: m.reactions.push(x), ..m };
    lemma_keys_kept(m, s1);
    assert forall|i: int| 0 <= i < s1.reactions.len() implies s1.has_message(
        #[trigger] s1.reactions[i].message_guid,
    ) by {
        if i < m.reactions.len() {
            assert(s1.reactions[i] == m.reactions[i]);
        }
    }
    assert forall|i: int, j: int|
        0 <= i < s1.reactions.len() && 0 <= j < s1.reactions.len() && i != j
            && #[trigger] s1.reactions[i].handle_id is Some implies !(s1.reactions[i].message_guid
        == #[trigger] s1.reactions[j].message_guid && s1.reactions[i].handle_id == s1.reactions[j].handle_id
        && s1.reactions[i].reaction_type == s1.reactions[j].reaction_type) by {
        if i < m.reactions.len() && j < m.reactions.len() {
            assert(s1.reactions[i] == m.reactions[i] && s1.reactions[j] == m.reactions[j]);
        } else if i < m.reactions.len() {
            assert(s1.reactions[i] == m.reactions[i]);
            if s1.reactions[i].message_guid == s1.reactions[j].message_guid && s1.reactions[i].handle_id
                == s1.reactions[j].handle_id && s1.reactions[i].reaction_type == s1.reactions[j].reaction_type {
                assert(m.has_reaction(x.message_guid, x.handle_id->0, x.reaction_type));
            }
        } else {
            assert(s1.reactions[j] == m.reactions[j]);
            if s1.reactions[i].message_guid == s1.reactions[j].message_guid && s1.reactions[i].handle_id
                == s1.reactions[j].handle_id && s1.reactions[i].reaction_type == s1.reactions[j].reaction_type {
                assert(m.has_reaction(x.message_guid, x.handle_id->0, x.reaction_type));
            }
        }
    }
}

/// A loaded setting joins the store where its key is new.
pub proof fn lemma_load_kv_wf(m: StoreModel, x: KvModel)
    requires
        m.wf(),
        !m.has_key(x.key),
    ensures
        (StoreModel { kv: m.kv.push(x), ..m }).wf(),
{
    let s1 = StoreModel { kv: m.kv.push(x), ..m };
    lemma_keys_kept(m, s1);
    assert forall|i: int, j: int|
        0 <= i < s1.kv.len() && 0 <= j < s1.kv.len() && i != j implies #[trigger] s1.kv[i].key
        != #[trigger] s1.kv[j].key by {
        if i < m.kv.len() && j < m.kv.len() {
            assert(s1.kv[i] == m.kv[i] && s1.kv[j] == m.kv[j]);
        } else if i < m.kv.len() {
            assert(s1.kv[i] == m.kv[i]);
        } else {
            assert(s1.kv[j] == m.kv[j]);
        }
    }
}

/// A chat row loaded into `m`: refused where its guid is taken.
pub open spec fn load_chat_step(m: StoreModel, c: ChatModel) -> Result<StoreModel, StorageError> {
    if m.has_chat(c.guid) {
        Err(StorageError::Unique)
    } else {
        Ok(StoreModel { chats: m.chats.push(c), ..m })
    }
}

/// A handle row loaded into `m`: refused where its id is not positive, or
/// its id or its address on its service is taken.
pub open spec fn load_handle_step(m: StoreModel, h: HandleModel) -> Result<StoreModel, StorageError> {
    if h.id < 1 {
        Err(StorageError::OutOfRange)
    } else if m.has_handle(h.id) || m.has_handle_key(h.address, h.service) {
        Err(StorageError::Unique)
    } else {
        Ok(with_handle(m, h))
    }
}

/// `m` with its handle sequence raised to `seq` where that is higher.
pub open spec fn note_sequence(m: StoreModel, seq: i64) -> StoreModel {
    if seq > m.last_handle_id {
        StoreModel { last_handle_id: seq, ..m }
    } else {
        m
    }
}

/// A membership loaded into `m`: refused where its chat or handle is
/// missing, or it is there already.
pub open spec fn load_member_step(m: StoreModel, x: MemberModel) -> Result<StoreModel, StorageError> {
    if !(m.has_chat(x.chat_guid) && m.has_handle(x.handle_id)) {
        Err(StorageError::ForeignKey)
    } else if has_member(m, x) {
        Err(StorageError::Unique)
    } else {
        Ok(StoreModel { members: m.members.push(x), ..m })
    }
}

/// A message row loaded into `m`: refused where its chat or sender is
/// missing, or its guid is taken.
pub open spec fn load_message_step(m: StoreModel, x: MessageModel) -> Result<StoreModel, StorageError> {
    if !(m.has_chat(x.chat_guid) && (x.handle_id matches Some(h) ==> m.has_handle(h))) {
        Err(StorageError::ForeignKey)
    } else if m.has_message(x.guid) {
        Err(StorageError::Unique)
    } else {
        Ok(StoreModel { messages: m.messages.push(x), ..m })
    }
}

/// A reaction row loaded into `m`: refused where its message is missing,
/// or, for one with a handle, that handle's reaction of that type is there.
pub open spec fn load_reaction_step(m: StoreModel, x: ReactionModel) -> Result<StoreModel, StorageError> {
    if !m.has_message(x.message_guid) {
        Err(StorageError::ForeignKey)
    } else if x.handle_id matches Some(h) && m.has_reaction(x.message_guid, h, x.reaction_type) {
        Err(StorageError::Unique)
    } else {
        Ok(StoreModel { reactions: m.reactions.push(x), ..m })
    }
}

/// A setting loaded into `m`: refused where its key is taken.
pub open spec fn load_setting_step(m: StoreModel, x: KvModel) -> Result<StoreModel, StorageError> {
    if m.has_key(x.key) {
        Err(StorageError::Unique)
    } else {
        Ok(StoreModel { kv: m.kv.push(x), ..m })
    }
}

pub open spec fn chat_loader() -> spec_fn(StoreModel, ChatModel) -> Result<StoreModel, StorageError> {
    |m: StoreModel, c: ChatModel| load_chat_step(m, c)
}

pub open spec fn handle_loader() -> spec_fn(StoreModel, HandleModel) -> Result<StoreModel, StorageError> {
    |m: StoreModel, h: HandleModel| load_handle_step(m, h)
}

pub open spec fn member_loader() -> spec_fn(StoreModel, MemberModel) -> Result<StoreModel, StorageError> {
    |m: StoreModel, x: MemberModel| load_member_step(m, x)
}

pub open spec fn message_loader() -> spec_fn(StoreModel, MessageModel) -> Result<StoreModel, StorageError> {
    |m: StoreModel, x: MessageModel| load_message_step(m, x)
}

pub open spec fn reaction_loader() -> spec_fn(StoreModel, ReactionModel) -> Result<StoreModel, StorageError> {
    |m: StoreModel, x: ReactionModel| load_reaction_step(m, x)
}

pub open spec fn setting_loader() -> spec_fn(StoreModel, KvModel) -> Result<StoreModel, StorageError> {
    |m: StoreModel, x: KvModel| load_setting_step(m, x)
}

/// `rows` loaded into `m` one after the other, up to the first refusal.
pub open spec fn load_rows<A>(
    m: StoreModel,
    rows: Seq<A>,
    step: spec_fn(StoreModel, A) -> Result<StoreModel, StorageError>,
) -> Result<StoreModel, StorageError>
    decreases rows.len(),
{
    if rows.len() == 0 {
        Ok(m)
    } else {
        match load_rows(m, rows.drop_last(), step) {
            Ok(m1) => step(m1, rows.last()),
            Err(e) => Err(e),
        }
    }
}

/// The store rebuilt from the rows and handle sequence that `m` hands out,
/// loaded into an empty store table by table: chats, handles, the sequence,
/// memberships, messages, reactions, settings.
pub open spec fn reload(m: StoreModel) -> Result<StoreModel, StorageError> {
    match load_rows(empty_store(), m.chats, chat_loader()) {
        Err(e) => Err(e),
        Ok(s1) => match load_rows(s1, m.handles, handle_loader()) {
            Err(e) => Err(e),
            Ok(s2) => match load_rows(note_sequence(s2, m.last_handle_id), m.members, member_loader()) {
                Err(e) => Err(e),
                Ok(s3) => match load_rows(s3, m.messages, message_loader()) {
                    Err(e) => Err(e),
                    Ok(s4) => match load_rows(s4, m.reactions, reaction_loader()) {
                        Err(e) => Err(e),
                        Ok(s5) => load_rows(s5, m.kv, setting_loader()),
                    },
                },
            },
        },
    }
}

} // verus!
