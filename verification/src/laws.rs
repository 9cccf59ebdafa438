//! What holds of the store across its operations.

use vstd::prelude::*;

use crate::rank::{is_ranked, lemma_rank_sort};

use crate::store_model::{
    StoreModel, ChatModel, MessageModel, MessageRowView, kv_set, kv_value, upsert_handle, upsert_handle_result, insert_message, message_accepted,
    message_of, bump, mark_chat_read, seed_demo,
    seed_demo_result, lemma_kv_set_wf, lemma_insert_message_wf, seed_handles, seed_chats,
    seed_messages, seed_message, upsert_chat, set_participants, set_pin, keeps_refs,
    lemma_upsert_chat_refs, lemma_small_steps_refs, list_handles, handle_row,
    HandleModel, set_participants as set_members, participants_accepted, dedup, MemberModel,
    lemma_filter_props, ReactionModel, KvModel, empty_store, has_member, with_handle, note_sequence,
    load_rows, reload, chat_loader, handle_loader, member_loader, message_loader, reaction_loader,
    setting_loader, set_archived, edit_message, unsend_message, add_reaction,
};
use crate::storage::HandleRow;
use crate::store_model::StorageError;

verus! {

/// A value stored under a key is read back under that key, and every other
/// key reads as before.
pub proof fn lemma_kv_read_after_write(m: StoreModel, k: Seq<char>, v: Seq<char>)
    requires
        m.wf(),
    ensures
        kv_value(kv_set(m, k, v), k) == Some(v),
        forall|k2: Seq<char>| k2 != k ==> #[trigger] kv_value(kv_set(m, k, v), k2) == kv_value(m, k2),
{
    let m1 = kv_set(m, k, v);
    lemma_kv_set_wf(m, k, v);
    let i = m.kv_index(k);
    let j = if i >= 0 { i } else { m.kv.len() as int };
    assert(m1.kv[j].key == k);
    assert forall|k2: Seq<char>| k2 != k implies #[trigger] kv_value(m1, k2) == kv_value(m, k2) by {
        if m.has_key(k2) {
            let a = choose|a: int| 0 <= a < m.kv.len() && #[trigger] m.kv[a].key == k2;
            assert(m1.kv[a] == m.kv[a]);
            assert(m1.has_key(k2));
        }
        if m1.has_key(k2) {
            let b = choose|b: int| 0 <= b < m1.kv.len() && #[trigger] m1.kv[b].key == k2;
            assert(b != j);
            assert(m1.kv[b] == m.kv[b]);
            assert(m.has_key(k2));
        }
    }
}

/// Filing a handle again under the same address and service gives back the
/// same id, and the handle under that id carries the latest display name,
/// where the handle sequence leaves an id for each of the two calls.
pub proof fn lemma_upsert_handle_stable(
    m: StoreModel,
    address: Seq<char>,
    service: Seq<char>,
    name: Seq<char>,
    later_name: Seq<char>,
    now: i64,
    later: i64,
)
    requires
        m.wf(),
        m.last_handle_id + 1 < i64::MAX,
    ensures
        upsert_handle_result(upsert_handle(m, address, service, name, now), address, service)
            == upsert_handle_result(m, address, service),
        ({
            let m2 = upsert_handle(upsert_handle(m, address, service, name, now), address, service, later_name, later);
            let id = upsert_handle_result(m, address, service)->Ok_0;
            &&& m2.has_handle(id)
            &&& m2.handles[m2.handle_index(id)].display_name == later_name
            &&& m2.handles[m2.handle_index(id)].address == address
            &&& m2.handles[m2.handle_index(id)].service == service
        }),
{
    let m1 = upsert_handle(m, address, service, name, now);
    let i = m.handle_key_index(address, service);
    let j = if i >= 0 { i } else { m.handles.len() as int };
    assert(m1.handles[j].address == address && m1.handles[j].service == service);
    assert(m1.has_handle_key(address, service));
    let k = m1.handle_key_index(address, service);
    assert(k == j);
    let m2 = upsert_handle(m1, address, service, later_name, later);
    let id = upsert_handle_result(m, address, service)->Ok_0;
    assert(m2.handles[j].id == id);
    assert(m2.has_handle(id));
}

/// A filed message is in the store as given, and a received one raises its
/// chat's unread count by one (held at the largest `i64`).
pub proof fn lemma_insert_message_filed(m: StoreModel, r: MessageRowView)
    requires
        m.wf(),
        message_accepted(m, r),
    ensures
        ({
            let m1 = insert_message(m, r);
            &&& m1.has_message(r.guid)
            &&& m1.messages[m1.message_index(r.guid)] == message_of(r)
            &&& m1.has_chat(r.chat_guid)
            &&& m1.chats[m1.chat_index(r.chat_guid)].unread_count == if r.is_from_me {
                m.chats[m.chat_index(r.chat_guid)].unread_count
            } else {
                bump(m.chats[m.chat_index(r.chat_guid)].unread_count)
            }
            &&& m1.chats[m1.chat_index(r.chat_guid)].last_message_preview == r.text
        }),
        forall|i: int|
            0 <= i < insert_message(m, r).messages.len() && #[trigger] insert_message(m, r).messages[i].guid
                == r.guid ==> {
                let x = insert_message(m, r).messages[i];
                &&& x.chat_guid == r.chat_guid
                &&& x.handle_id == r.handle_id
                &&& x.text == r.text
                &&& x.subject == r.subject
                &&& x.is_from_me == r.is_from_me
                &&& x.date == r.date
                &&& x.date_read == r.date_read
                &&& x.date_edited == r.date_edited
                &&& x.is_unsent == r.is_unsent
                &&& x.has_attachments == r.has_attachments
                &&& x.thread_origin_guid == r.thread_origin_guid
            },
        forall|g: Seq<char>| g != r.guid && #[trigger] m.has_message(g) ==> insert_message(m, r).has_message(g),
        ({
            let c0 = m.chats[m.chat_index(r.chat_guid)];
            let c1 = insert_message(m, r).chats[m.chat_index(r.chat_guid)];
            &&& c1.guid == r.chat_guid
            &&& c1.last_message_date >= c0.last_message_date
            &&& c1.last_message_date >= r.date
            &&& (c1.last_message_date == c0.last_message_date || c1.last_message_date == r.date)
        }),
{
    let m1 = insert_message(m, r);
    lemma_insert_message_wf(m, r);
    let last = m1.messages.len() - 1;
    assert(m1.messages[last] == message_of(r));
    assert(m1.messages[last].guid == r.guid);
    assert(m1.has_message(r.guid));
    let ci = m.chat_index(r.chat_guid);
    assert(m1.chats[ci].guid == r.chat_guid);
    assert(m1.has_chat(r.chat_guid));
    let oi = m.message_index(r.guid);
    let kept = if oi >= 0 { m.messages.remove(oi) } else { m.messages };
    assert(m1.messages == kept.push(message_of(r)));
    assert forall|i: int| 0 <= i < m1.messages.len() && #[trigger] m1.messages[i].guid == r.guid implies m1.messages[i]
        == message_of(r) by {
        if i < kept.len() {
            if oi >= 0 {
                if i < oi {
                    assert(kept[i] == m.messages[i]);
                    assert(m.messages[i].guid == m.messages[oi].guid);
                } else {
                    assert(kept[i] == m.messages[i + 1]);
                    assert(m.messages[i + 1].guid == m.messages[oi].guid);
                }
            } else {
                assert(kept[i] == m.messages[i]);
                assert(m.has_message(r.guid));
            }
        }
    }
    assert forall|g: Seq<char>| g != r.guid && #[trigger] m.has_message(g) implies m1.has_message(g) by {
        let j = choose|j: int| 0 <= j < m.messages.len() && #[trigger] m.messages[j].guid == g;
        if oi >= 0 {
            if j < oi {
                assert(kept[j] == m.messages[j]);
                assert(m1.messages[j].guid == g);
            } else {
                assert(j != oi);
                assert(kept[j - 1] == m.messages[j]);
                assert(m1.messages[j - 1].guid == g);
            }
        } else {
            assert(m1.messages[j].guid == g);
        }
    }
}

/// Marking a chat read leaves it nothing unread, and dates every received
/// message of it read (at a time other than 0).
pub proof fn lemma_mark_chat_read_clears(m: StoreModel, chat: Seq<char>, now: i64)
    requires
        m.wf(),
        m.has_chat(chat),
        now != 0,
    ensures
        ({
            let m1 = mark_chat_read(m, chat, now);
            &&& m1.chats[m1.chat_index(chat)].unread_count == 0
            &&& forall|i: int|
                0 <= i < m1.messages.len() && #[trigger] m1.messages[i].chat_guid == chat
                    && !m1.messages[i].is_from_me ==> m1.messages[i].date_read != 0
        }),
{
    let m1 = mark_chat_read(m, chat, now);
    let ci = m.chat_index(chat);
    assert(m1.chats[ci].guid == chat);
    assert(m1.has_chat(chat));
    assert(m1.chat_index(chat) == ci);
}

/// The handles are listed by display name, then address, each once.
pub proof fn lemma_list_handles_order(m: StoreModel)
    ensures
        is_ranked::<HandleRow>(list_handles(m)),
        list_handles(m).to_multiset() == m.handles.map_values(|h: HandleModel| handle_row(h)).to_multiset(),
{
    lemma_rank_sort::<HandleRow>(m.handles.map_values(|h: HandleModel| handle_row(h)));
}

/// After the chat's participants are set, its members are the given
/// handles, each once, in the given order.
pub proof fn lemma_participants_replaced(m: StoreModel, chat: Seq<char>, ids: Seq<i64>)
    requires
        participants_accepted(m, chat, ids),
    ensures
        set_members(m, chat, ids).members.filter(|x: MemberModel| x.chat_guid == chat).map_values(
            |x: MemberModel| x.handle_id,
        ) == dedup(ids),
{
    let keep = |x: MemberModel| x.chat_guid != chat;
    let mine = |x: MemberModel| x.chat_guid == chat;
    let mk = |h: i64| MemberModel { chat_guid: chat, handle_id: h };
    let base = m.members.filter(keep);
    let added = dedup(ids).map_values(mk);
    lemma_filter_props(m.members, keep);
    assert(base.filter(mine) =~= Seq::<MemberModel>::empty()) by {
        lemma_filter_none(base, mine);
    }
    lemma_filter_all(added, mine);
    Seq::filter_distributes_over_add(base, added, mine);
    assert(added.map_values(|x: MemberModel| x.handle_id) =~= dedup(ids));
}

proof fn lemma_filter_none(s: Seq<MemberModel>, p: spec_fn(MemberModel) -> bool)
    requires
        forall|i: int| 0 <= i < s.len() ==> !p(#[trigger] s[i]),
    ensures
        s.filter(p) =~= Seq::<MemberModel>::empty(),
    decreases s.len(),
{
    reveal(Seq::filter);
    if s.len() > 0 {
        let t = s.drop_last();
        assert forall|i: int| 0 <= i < t.len() implies !p(#[trigger] t[i]) by {
            assert(t[i] == s[i]);
        }
        lemma_filter_none(t, p);
        assert(!p(s[s.len() - 1]));
    }
}

proof fn lemma_filter_all(s: Seq<MemberModel>, p: spec_fn(MemberModel) -> bool)
    requires
        forall|i: int| 0 <= i < s.len() ==> p(#[trigger] s[i]),
    ensures
        s.filter(p) == s,
    decreases s.len(),
{
    reveal(Seq::filter);
    if s.len() > 0 {
        let t = s.drop_last();
        assert forall|i: int| 0 <= i < t.len() implies p(#[trigger] t[i]) by {
            assert(t[i] == s[i]);
        }
        lemma_filter_all(t, p);
        assert(p(s[s.len() - 1]));
        assert(t.push(s.last()) =~= s);
    }
}

proof fn lemma_seed_messages_keep(m: StoreModel, h: Seq<i64>, now: i64)
    ensures
        keeps_refs(m, seed_messages(m, h, now)),
{
    let z = Seq::<char>::empty();
    let e = Seq::<i64>::empty();
    let m1 = insert_message(m, seed_message(0, "chat-nyx"@, Some(h[0]), "hey you"@, false, now.wrapping_sub(3600)));
    let m2 = insert_message(m1, seed_message(1, "chat-nyx"@, None, "hey! sorry was heads-down"@, true, now.wrapping_sub(3500)));
    let m3 = insert_message(m2, seed_message(2, "chat-nyx"@, Some(h[0]), "no worries \u{2014} dinner still on?"@, false, now.wrapping_sub(900)));
    let m4 = insert_message(m3, seed_message(3, "chat-kay"@, Some(h[1]), "sending the doc in a sec"@, false, now.wrapping_sub(7200)));
    let m5 = insert_message(m4, seed_message(4, "chat-kay"@, None, "thanks \u{1F64F}"@, true, now.wrapping_sub(7100)));
    let m6 = insert_message(m5, seed_message(5, "chat-rho"@, Some(h[2]), "can you pick up milk"@, false, now.wrapping_sub(60)));
    let m7 = insert_message(m6, seed_message(6, "chat-group"@, Some(h[3]), "bar at 7?"@, false, now.wrapping_sub(300)));
    let m8 = insert_message(m7, seed_message(7, "chat-group"@, Some(h[4]), "i'm in"@, false, now.wrapping_sub(250)));
    let m9 = insert_message(m8, seed_message(8, "chat-group"@, None, "same"@, true, now.wrapping_sub(240)));
    assert(m9 == seed_messages(m, h, now));
    lemma_small_steps_refs(m, z, e, true, 0, seed_message(0, "chat-nyx"@, Some(h[0]), "hey you"@, false, now.wrapping_sub(3600)));
    lemma_small_steps_refs(m1, z, e, true, 0, seed_message(1, "chat-nyx"@, None, "hey! sorry was heads-down"@, true, now.wrapping_sub(3500)));
    lemma_small_steps_refs(m2, z, e, true, 0, seed_message(2, "chat-nyx"@, Some(h[0]), "no worries \u{2014} dinner still on?"@, false, now.wrapping_sub(900)));
    lemma_small_steps_refs(m3, z, e, true, 0, seed_message(3, "chat-kay"@, Some(h[1]), "sending the doc in a sec"@, false, now.wrapping_sub(7200)));
    lemma_small_steps_refs(m4, z, e, true, 0, seed_message(4, "chat-kay"@, None, "thanks \u{1F64F}"@, true, now.wrapping_sub(7100)));
    lemma_small_steps_refs(m5, z, e, true, 0, seed_message(5, "chat-rho"@, Some(h[2]), "can you pick up milk"@, false, now.wrapping_sub(60)));
    lemma_small_steps_refs(m6, z, e, true, 0, seed_message(6, "chat-group"@, Some(h[3]), "bar at 7?"@, false, now.wrapping_sub(300)));
    lemma_small_steps_refs(m7, z, e, true, 0, seed_message(7, "chat-group"@, Some(h[4]), "i'm in"@, false, now.wrapping_sub(250)));
    lemma_small_steps_refs(m8, z, e, true, 0, seed_message(8, "chat-group"@, None, "same"@, true, now.wrapping_sub(240)));
}

/// Filing the sample conversations a second time changes nothing: after a
/// successful first time the store holds a chat.
pub proof fn lemma_seed_idempotent(m: StoreModel, now: i64, later: i64)
    requires
        seed_demo_result(m, now) is Ok,
    ensures
        seed_demo(m, now).chats.len() > 0 || m.chats.len() > 0,
        seed_demo(seed_demo(m, now), later) == seed_demo(m, now),
        seed_demo_result(seed_demo(m, now), later) is Ok,
{
    if m.chats.len() == 0 {
        let (m1, r) = seed_handles(m, now);
        let h = r->Ok_0;
        let c = seed_chats(m1, h, now);
        lemma_upsert_chat_refs(m1, "chat-nyx"@, "Nyx"@, true, false, now);
        let a1 = upsert_chat(m1, "chat-nyx"@, "Nyx"@, true, false, now);
        assert(a1.chats.len() > 0);
        let a2 = set_participants(a1, "chat-nyx"@, seq![h[0]]);
        let a3 = set_pin(a2, "chat-nyx"@, true, 0);
        let a4 = upsert_chat(a3, "chat-kay"@, "Kay"@, true, false, now);
        let a5 = set_participants(a4, "chat-kay"@, seq![h[1]]);
        let a6 = upsert_chat(a5, "chat-rho"@, "Rho"@, false, false, now);
        let a7 = set_participants(a6, "chat-rho"@, seq![h[2]]);
        let a8 = upsert_chat(a7, "chat-group"@, "Friday roll"@, true, true, now);
        let a9 = set_participants(a8, "chat-group"@, seq![h[3], h[4]]);
        assert(a9 == c);
        let z = seed_message(0, Seq::empty(), None, Seq::empty(), true, 0);
        lemma_small_steps_refs(a1, "chat-nyx"@, seq![h[0]], true, 0, z);
        lemma_small_steps_refs(a2, "chat-nyx"@, seq![h[0]], true, 0, z);
        lemma_upsert_chat_refs(a3, "chat-kay"@, "Kay"@, true, false, now);
        lemma_small_steps_refs(a4, "chat-kay"@, seq![h[1]], true, 0, z);
        lemma_upsert_chat_refs(a5, "chat-rho"@, "Rho"@, false, false, now);
        lemma_small_steps_refs(a6, "chat-rho"@, seq![h[2]], true, 0, z);
        lemma_upsert_chat_refs(a7, "chat-group"@, "Friday roll"@, true, true, now);
        lemma_small_steps_refs(a8, "chat-group"@, seq![h[3], h[4]], true, 0, z);
        lemma_seed_messages_keep(c, h, now);
        assert(seed_demo(m, now) == seed_messages(c, h, now));
        assert(seed_demo(m, now).chats.len() > 0);
    }
}

/// The largest id among `hs`, or 0.
pub open spec fn max_id(hs: Seq<HandleModel>) -> i64
    decreases hs.len(),
{
    if hs.len() == 0 {
        0
    } else {
        let p = max_id(hs.drop_last());
        if hs.last().id > p {
            hs.last().id
        } else {
            p
        }
    }
}

proof fn lemma_max_id_bound(hs: Seq<HandleModel>, bound: i64)
    requires
        bound >= 0,
        forall|i: int| 0 <= i < hs.len() ==> #[trigger] hs[i].id <= bound,
    ensures
        max_id(hs) <= bound,
    decreases hs.len(),
{
    if hs.len() > 0 {
        let t = hs.drop_last();
        assert forall|i: int| 0 <= i < t.len() implies #[trigger] t[i].id <= bound by {
            assert(t[i] == hs[i]);
        }
        lemma_max_id_bound(t, bound);
        assert(hs.last() == hs[hs.len() - 1]);
    }
}

proof fn lemma_reload_chats(m: StoreModel, k: int)
    requires
        m.wf(),
        0 <= k <= m.chats.len(),
    ensures
        load_rows(empty_store(), m.chats.take(k), chat_loader()) == Ok::<StoreModel, StorageError>(
            StoreModel { chats: m.chats.take(k), ..empty_store() },
        ),
    decreases k,
{
    let t = m.chats.take(k);
    if k == 0 {
        assert(t =~= Seq::<ChatModel>::empty());
        assert(empty_store().chats =~= t);
    } else {
        lemma_reload_chats(m, k - 1);
        assert(t.drop_last() =~= m.chats.take(k - 1));
        let p = StoreModel { chats: m.chats.take(k - 1), ..empty_store() };
        let c = m.chats[k - 1];
        assert(t.last() == c);
        assert(!p.has_chat(c.guid)) by {
            if p.has_chat(c.guid) {
                let i = choose|i: int| 0 <= i < p.chats.len() && #[trigger] p.chats[i].guid == c.guid;
                assert(m.chats[i].guid == c.guid);
            }
        }
        assert(p.chats.push(c) =~= t);
    }
}

/// The store once its first `k` handles are loaded after its chats.
spec fn handles_loaded(m: StoreModel, k: int) -> StoreModel {
    StoreModel {
        chats: m.chats,
        handles: m.handles.take(k),
        last_handle_id: max_id(m.handles.take(k)),
        ..empty_store()
    }
}

proof fn lemma_reload_handles(m: StoreModel, k: int)
    requires
        m.wf(),
        0 <= k <= m.handles.len(),
    ensures
        load_rows(StoreModel { chats: m.chats, ..empty_store() }, m.handles.take(k), handle_loader())
            == Ok::<StoreModel, StorageError>(handles_loaded(m, k)),
    decreases k,
{
    let t = m.handles.take(k);
    if k == 0 {
        assert(t =~= Seq::<HandleModel>::empty());
        assert(handles_loaded(m, 0) == StoreModel { chats: m.chats, ..empty_store() }) by {
            assert(empty_store().handles =~= t);
        }
    } else {
        lemma_reload_handles(m, k - 1);
        assert(t.drop_last() =~= m.handles.take(k - 1));
        let p = handles_loaded(m, k - 1);
        let h = m.handles[k - 1];
        assert(t.last() == h);
        assert(h.id >= 1);
        assert(!p.has_handle(h.id)) by {
            if p.has_handle(h.id) {
                let i = choose|i: int| 0 <= i < p.handles.len() && #[trigger] p.handles[i].id == h.id;
                assert(m.handles[i].id == h.id);
                assert(m.handles[i] == m.handles[i] && m.handles[k - 1] == m.handles[k - 1]);
            }
        }
        assert(!p.has_handle_key(h.address, h.service)) by {
            if p.has_handle_key(h.address, h.service) {
                let i = choose|i: int|
                    0 <= i < p.handles.len() && #[trigger] p.handles[i].address == h.address
                        && p.handles[i].service == h.service;
                assert(m.handles[i].address == h.address);
                assert(m.handles[i] == m.handles[i] && m.handles[k - 1] == m.handles[k - 1]);
            }
        }
        assert(with_handle(p, h) =~= handles_loaded(m, k)) by {
            assert(p.handles.push(h) =~= t);
        }
    }
}

/// The store once its chats, handles, sequence and first `k` memberships are loaded.
spec fn members_loaded(m: StoreModel, k: int) -> StoreModel {
    StoreModel { chats: m.chats, handles: m.handles, last_handle_id: m.last_handle_id, members: m.members.take(k), ..empty_store() }
}

proof fn lemma_reload_members(m: StoreModel, k: int)
    requires
        m.wf(),
        0 <= k <= m.members.len(),
    ensures
        load_rows(members_loaded(m, 0), m.members.take(k), member_loader())
            == Ok::<StoreModel, StorageError>(members_loaded(m, k)),
    decreases k,
{
    let t = m.members.take(k);
    if k == 0 {
        assert(t =~= Seq::<MemberModel>::empty());
    } else {
        lemma_reload_members(m, k - 1);
        assert(t.drop_last() =~= m.members.take(k - 1));
        let p = members_loaded(m, k - 1);
        let x = m.members[k - 1];
        assert(t.last() == x);
        assert(p.has_chat(x.chat_guid) && p.has_handle(x.handle_id)) by {
            let i = choose|i: int| 0 <= i < m.chats.len() && #[trigger] m.chats[i].guid == x.chat_guid;
            assert(p.chats[i].guid == x.chat_guid);
            let j = choose|j: int| 0 <= j < m.handles.len() && #[trigger] m.handles[j].id == x.handle_id;
            assert(p.handles[j].id == x.handle_id);
        }
        assert(!has_member(p, x)) by {
            if has_member(p, x) {
                let i = choose|i: int| 0 <= i < p.members.len() && #[trigger] p.members[i] == x;
                assert(m.members[i] == x);
            }
        }
        assert(p.members.push(x) =~= t);
    }
}

/// The store once everything before the messages and its first `k` messages are loaded.
spec fn messages_loaded(m: StoreModel, k: int) -> StoreModel {
    StoreModel {
        chats: m.chats,
        handles: m.handles,
        last_handle_id: m.last_handle_id,
        members: m.members,
        messages: m.messages.take(k),
        ..empty_store()
    }
}

proof fn lemma_reload_messages(m: StoreModel, k: int)
    requires
        m.wf(),
        0 <= k <= m.messages.len(),
    ensures
        load_rows(messages_loaded(m, 0), m.messages.take(k), message_loader())
            == Ok::<StoreModel, StorageError>(messages_loaded(m, k)),
    decreases k,
{
    let t = m.messages.take(k);
    if k == 0 {
        assert(t =~= Seq::<MessageModel>::empty());
    } else {
        lemma_reload_messages(m, k - 1);
        assert(t.drop_last() =~= m.messages.take(k - 1));
        let p = messages_loaded(m, k - 1);
        let x = m.messages[k - 1];
        assert(t.last() == x);
        assert(p.has_chat(x.chat_guid)) by {
            let i = choose|i: int| 0 <= i < m.chats.len() && #[trigger] m.chats[i].guid == x.chat_guid;
            assert(p.chats[i].guid == x.chat_guid);
        }
        assert(x.handle_id matches Some(h) ==> p.has_handle(h)) by {
            if let Some(h) = x.handle_id {
                let j = choose|j: int| 0 <= j < m.handles.len() && #[trigger] m.handles[j].id == h;
                assert(p.handles[j].id == h);
            }
        }
        assert(!p.has_message(x.guid)) by {
            if p.has_message(x.guid) {
                let i = choose|i: int| 0 <= i < p.messages.len() && #[trigger] p.messages[i].guid == x.guid;
                assert(m.messages[i].guid == x.guid);
            }
        }
        assert(p.messages.push(x) =~= t);
    }
}

/// The store once everything before the reactions and its first `k` reactions are loaded.
spec fn reactions_loaded(m: StoreModel, k: int) -> StoreModel {
    StoreModel { reactions: m.reactions.take(k), kv: Seq::empty(), ..m }
}

proof fn lemma_reload_reactions(m: StoreModel, k: int)
    requires
        m.wf(),
        0 <= k <= m.reactions.len(),
    ensures
        load_rows(reactions_loaded(m, 0), m.reactions.take(k), reaction_loader())
            == Ok::<StoreModel, StorageError>(reactions_loaded(m, k)),
    decreases k,
{
    let t = m.reactions.take(k);
    if k == 0 {
        assert(t =~= Seq::<ReactionModel>::empty());
    } else {
        lemma_reload_reactions(m, k - 1);
        assert(t.drop_last() =~= m.reactions.take(k - 1));
        let p = reactions_loaded(m, k - 1);
        let x = m.reactions[k - 1];
        assert(t.last() == x);
        assert(p.has_message(x.message_guid)) by {
            let i = choose|i: int| 0 <= i < m.messages.len() && #[trigger] m.messages[i].guid == x.message_guid;
            assert(p.messages[i].guid == x.message_guid);
        }
        assert(!(x.handle_id matches Some(h) && p.has_reaction(x.message_guid, h, x.reaction_type))) by {
            if let Some(h) = x.handle_id {
                if p.has_reaction(x.message_guid, h, x.reaction_type) {
                    let i = choose|i: int|
                        0 <= i < p.reactions.len() && #[trigger] p.reactions[i].message_guid == x.message_guid
                            && p.reactions[i].handle_id == Some(h) && p.reactions[i].reaction_type == x.reaction_type;
                    assert(m.reactions[i] == p.reactions[i]);
                    assert(m.reactions[k - 1].handle_id is Some);
                    assert(m.reactions[k - 1].message_guid == m.reactions[i].message_guid);
                }
            }
        }
        assert(p.reactions.push(x) =~= t);
    }
}

proof fn lemma_reload_settings(m: StoreModel, k: int)
    requires
        m.wf(),
        0 <= k <= m.kv.len(),
    ensures
        load_rows(StoreModel { kv: Seq::empty(), ..m }, m.kv.take(k), setting_loader())
            == Ok::<StoreModel, StorageError>(StoreModel { kv: m.kv.take(k), ..m }),
    decreases k,
{
    let t = m.kv.take(k);
    if k == 0 {
        assert(t =~= Seq::<KvModel>::empty());
    } else {
        lemma_reload_settings(m, k - 1);
        assert(t.drop_last() =~= m.kv.take(k - 1));
        let p = StoreModel { kv: m.kv.take(k - 1), ..m };
        let x = m.kv[k - 1];
        assert(t.last() == x);
        assert(!p.has_key(x.key)) by {
            if p.has_key(x.key) {
                let i = choose|i: int| 0 <= i < p.kv.len() && #[trigger] p.kv[i].key == x.key;
                assert(m.kv[i].key == x.key);
            }
        }
        assert(p.kv.push(x) =~= t);
    }
}

/// A consistent store is rebuilt exactly from the rows and handle sequence
/// it hands out, loaded table by table into an empty store: what is kept is
/// what is read back.
pub proof fn lemma_reload(m: StoreModel)
    requires
        m.wf(),
    ensures
        reload(m) == Ok::<StoreModel, StorageError>(m),
{
    lemma_take_full(m.chats);
    lemma_take_full(m.handles);
    lemma_take_full(m.members);
    lemma_take_full(m.messages);
    lemma_take_full(m.reactions);
    lemma_take_full(m.kv);
    lemma_reload_chats(m, m.chats.len() as int);
    let s1 = StoreModel { chats: m.chats, ..empty_store() };
    lemma_reload_handles(m, m.handles.len() as int);
    let s2 = handles_loaded(m, m.handles.len() as int);
    lemma_max_id_bound(m.handles, m.last_handle_id);
    assert(note_sequence(s2, m.last_handle_id) == members_loaded(m, 0)) by {
        assert(m.members.take(0) =~= Seq::<MemberModel>::empty());
    }
    lemma_reload_members(m, m.members.len() as int);
    assert(members_loaded(m, m.members.len() as int) == messages_loaded(m, 0)) by {
        assert(m.messages.take(0) =~= Seq::<MessageModel>::empty());
    }
    lemma_reload_messages(m, m.messages.len() as int);
    assert(messages_loaded(m, m.messages.len() as int) == reactions_loaded(m, 0)) by {
        assert(m.reactions.take(0) =~= Seq::<ReactionModel>::empty());
    }
    lemma_reload_reactions(m, m.reactions.len() as int);
    lemma_reload_settings(m, m.kv.len() as int);
    assert(reactions_loaded(m, m.reactions.len() as int) == StoreModel { kv: Seq::empty(), ..m });
}

proof fn lemma_take_full<A>(s: Seq<A>)
    ensures
        s.take(s.len() as int) == s,
{
    assert(s.take(s.len() as int) =~= s);
}

/// Marking a chat read dates read exactly the received, unread messages of
/// that chat, at `now`, and changes nothing else of any message; every other
/// chat is left as it was, and the chat itself only loses its unread count.
pub proof fn lemma_mark_chat_read_scope(m: StoreModel, chat: Seq<char>, now: i64)
    requires
        m.wf(),
    ensures
        ({
            let m1 = mark_chat_read(m, chat, now);
            &&& m1.messages.len() == m.messages.len()
            &&& m1.chats.len() == m.chats.len()
            &&& m1.handles == m.handles && m1.members == m.members && m1.reactions == m.reactions
                && m1.kv == m.kv
        }),
        forall|i: int|
            0 <= i < m.messages.len() && m.messages[i].chat_guid != chat
                ==> #[trigger] mark_chat_read(m, chat, now).messages[i] == m.messages[i],
        forall|i: int|
            0 <= i < m.messages.len() && m.messages[i].chat_guid == chat ==> {
                let x = m.messages[i];
                let y = #[trigger] mark_chat_read(m, chat, now).messages[i];
                &&& y.date_read == (if !x.is_from_me && x.date_read == 0 { now } else { x.date_read })
                &&& y == MessageModel { date_read: y.date_read, ..x }
            },
        forall|j: int|
            0 <= j < m.chats.len() && m.chats[j].guid != chat
                ==> #[trigger] mark_chat_read(m, chat, now).chats[j] == m.chats[j],
        forall|j: int|
            0 <= j < m.chats.len() && m.chats[j].guid == chat ==> {
                let c = #[trigger] mark_chat_read(m, chat, now).chats[j];
                &&& c.unread_count == 0
                &&& c == ChatModel { unread_count: 0, ..m.chats[j] }
            },
{
    let m1 = mark_chat_read(m, chat, now);
    let ci = m.chat_index(chat);
    if ci >= 0 {
        assert(m.chats[ci].guid == chat);
    }
    assert forall|j: int| 0 <= j < m.chats.len() && m.chats[j].guid == chat implies {
        let c = #[trigger] m1.chats[j];
        &&& c.unread_count == 0
        &&& c == ChatModel { unread_count: 0, ..m.chats[j] }
    } by {
        assert(m.has_chat(chat));
        assert(ci >= 0);
        if j != ci {
            lemma_chat_guid_unique(m, j, ci);
        }
    }
}

/// Filing a chat leaves exactly one chat under its guid, carrying the title
/// and kinds given: a chat there before keeps its pin, archive flag, unread
/// count, last message and creation time; a new one starts unpinned, not
/// archived, with nothing unread and created `now`. Every other chat is left
/// as it was.
pub proof fn lemma_upsert_chat_sets(m: StoreModel, g: Seq<char>, t: Seq<char>, im: bool, gr: bool, now: i64)
    requires
        m.wf(),
    ensures
        upsert_chat(m, g, t, im, gr, now).has_chat(g),
        upsert_chat(m, g, t, im, gr, now).chats.len() == if m.has_chat(g) { m.chats.len() } else { m.chats.len() + 1 },
        forall|i: int|
            0 <= i < upsert_chat(m, g, t, im, gr, now).chats.len() && #[trigger] upsert_chat(m, g, t, im, gr, now).chats[i].guid
                == g ==> {
                let c = upsert_chat(m, g, t, im, gr, now).chats[i];
                &&& c.title == t
                &&& c.is_imessage == im
                &&& c.is_group == gr
                &&& if m.has_chat(g) {
                    let c0 = m.chats[m.chat_index(g)];
                    &&& c.is_pinned == c0.is_pinned
                    &&& c.pin_order == c0.pin_order
                    &&& c.is_archived == c0.is_archived
                    &&& c.unread_count == c0.unread_count
                    &&& c.last_message_date == c0.last_message_date
                    &&& c.last_message_preview == c0.last_message_preview
                    &&& c.created_at == c0.created_at
                } else {
                    &&& !c.is_pinned
                    &&& !c.is_archived
                    &&& c.unread_count == 0
                    &&& c.created_at == now
                }
            },
        forall|i: int|
            0 <= i < m.chats.len() && m.chats[i].guid != g
                ==> #[trigger] upsert_chat(m, g, t, im, gr, now).chats[i] == m.chats[i],
{
    let m1 = upsert_chat(m, g, t, im, gr, now);
    let ci = m.chat_index(g);
    if ci >= 0 {
        assert(m1.chats[ci].guid == g);
        assert forall|i: int| 0 <= i < m1.chats.len() && #[trigger] m1.chats[i].guid == g implies i == ci by {
            if i != ci {
                assert(m1.chats[i] == m.chats[i]);
                lemma_chat_guid_unique(m, i, ci);
            }
        }
    } else {
        assert(m1.chats[m.chats.len() as int].guid == g);
        assert forall|i: int| 0 <= i < m1.chats.len() && #[trigger] m1.chats[i].guid == g implies i == m.chats.len() by {
            if i < m.chats.len() {
                assert(m1.chats[i] == m.chats[i]);
                assert(m.has_chat(g));
            }
        }
    }
}

/// Pinning or unpinning an existing chat gives it exactly the pin state and
/// order asked for, whatever it had, and changes nothing else; a missing
/// chat leaves the store as it was.
pub proof fn lemma_set_pin_sets(m: StoreModel, g: Seq<char>, p: bool, o: i32)
    requires
        m.wf(),
    ensures
        !m.has_chat(g) ==> set_pin(m, g, p, o) == m,
        set_pin(m, g, p, o).chats.len() == m.chats.len(),
        forall|i: int|
            0 <= i < m.chats.len() && m.chats[i].guid == g ==> {
                let c = #[trigger] set_pin(m, g, p, o).chats[i];
                &&& c.is_pinned == p
                &&& c.pin_order == o
                &&& c == ChatModel { is_pinned: p, pin_order: o, ..m.chats[i] }
            },
        forall|i: int|
            0 <= i < m.chats.len() && m.chats[i].guid != g ==> #[trigger] set_pin(m, g, p, o).chats[i] == m.chats[i],
{
    let ci = m.chat_index(g);
    if ci >= 0 {
        assert forall|i: int| 0 <= i < m.chats.len() && m.chats[i].guid == g implies i == ci by {
            if i != ci {
                lemma_chat_guid_unique(m, i, ci);
            }
        }
    }
}

/// Archiving or restoring an existing chat gives it exactly the archive
/// flag asked for, whatever it had, and changes nothing else; a missing chat
/// leaves the store as it was.
pub proof fn lemma_set_archived_sets(m: StoreModel, g: Seq<char>, a: bool)
    requires
        m.wf(),
    ensures
        !m.has_chat(g) ==> set_archived(m, g, a) == m,
        set_archived(m, g, a).chats.len() == m.chats.len(),
        forall|i: int|
            0 <= i < m.chats.len() && m.chats[i].guid == g ==> {
                let c = #[trigger] set_archived(m, g, a).chats[i];
                &&& c.is_archived == a
                &&& c == ChatModel { is_archived: a, ..m.chats[i] }
            },
        forall|i: int|
            0 <= i < m.chats.len() && m.chats[i].guid != g ==> #[trigger] set_archived(m, g, a).chats[i] == m.chats[i],
{
    let ci = m.chat_index(g);
    if ci >= 0 {
        assert forall|i: int| 0 <= i < m.chats.len() && m.chats[i].guid == g implies i == ci by {
            if i != ci {
                lemma_chat_guid_unique(m, i, ci);
            }
        }
    }
}

/// In a consistent store, two chats with one guid are one chat.
proof fn lemma_chat_guid_unique(m: StoreModel, i: int, j: int)
    requires
        m.wf(),
        0 <= i < m.chats.len(),
        0 <= j < m.chats.len(),
        m.chats[i].guid == m.chats[j].guid,
    ensures
        i == j,
{
}

/// In a consistent store, two messages with one guid are one message.
proof fn lemma_message_guid_unique(m: StoreModel, i: int, j: int)
    requires
        m.wf(),
        0 <= i < m.messages.len(),
        0 <= j < m.messages.len(),
        m.messages[i].guid == m.messages[j].guid,
    ensures
        i == j,
{
}

/// Editing a message gives it exactly the new text, dated `now`, and changes
/// nothing else of it or of any other message or table.
pub proof fn lemma_edit_message_sets(m: StoreModel, g: Seq<char>, t: Seq<char>, now: i64)
    requires
        m.wf(),
    ensures
        !m.has_message(g) ==> edit_message(m, g, t, now) == m,
        edit_message(m, g, t, now).messages.len() == m.messages.len(),
        edit_message(m, g, t, now).chats == m.chats,
        edit_message(m, g, t, now).reactions == m.reactions,
        forall|i: int|
            0 <= i < m.messages.len() && m.messages[i].guid == g ==> {
                let x = #[trigger] edit_message(m, g, t, now).messages[i];
                &&& x.text == t
                &&& x.date_edited == now
                &&& x == MessageModel { text: t, date_edited: now, ..m.messages[i] }
            },
        forall|i: int|
            0 <= i < m.messages.len() && m.messages[i].guid != g
                ==> #[trigger] edit_message(m, g, t, now).messages[i] == m.messages[i],
{
    let k = m.message_index(g);
    if k >= 0 {
        assert forall|i: int| 0 <= i < m.messages.len() && m.messages[i].guid == g implies i == k by {
            if i != k {
                lemma_message_guid_unique(m, i, k);
            }
        }
    }
}

/// Unsending a message marks it unsent with no text and changes nothing else
/// of it or of any other message or table.
pub proof fn lemma_unsend_message_sets(m: StoreModel, g: Seq<char>)
    requires
        m.wf(),
    ensures
        !m.has_message(g) ==> unsend_message(m, g) == m,
        unsend_message(m, g).messages.len() == m.messages.len(),
        unsend_message(m, g).chats == m.chats,
        unsend_message(m, g).reactions == m.reactions,
        forall|i: int|
            0 <= i < m.messages.len() && m.messages[i].guid == g ==> {
                let x = #[trigger] unsend_message(m, g).messages[i];
                &&& x.is_unsent
                &&& x.text.len() == 0
                &&& x == MessageModel { is_unsent: true, text: Seq::empty(), ..m.messages[i] }
            },
        forall|i: int|
            0 <= i < m.messages.len() && m.messages[i].guid != g ==> #[trigger] unsend_message(m, g).messages[i]
                == m.messages[i],
{
    let k = m.message_index(g);
    if k >= 0 {
        assert forall|i: int| 0 <= i < m.messages.len() && m.messages[i].guid == g implies i == k by {
            if i != k {
                lemma_message_guid_unique(m, i, k);
            }
        }
    }
}

/// A reaction to an existing message is filed last, as given; with a handle
/// it takes the place of that handle's reaction of the same type to that
/// message, and every other reaction stays. Messages and chats do not change.
pub proof fn lemma_add_reaction_sets(
    m: StoreModel,
    g: Seq<char>,
    h: Option<i64>,
    me: bool,
    t: Seq<char>,
    now: i64,
)
    requires
        m.wf(),
    ensures
        !m.has_message(g) ==> add_reaction(m, g, h, me, t, now) == m,
        add_reaction(m, g, h, me, t, now).messages == m.messages,
        add_reaction(m, g, h, me, t, now).chats == m.chats,
        m.has_message(g) ==> {
            let rs = add_reaction(m, g, h, me, t, now).reactions;
            &&& rs.len() > 0
            &&& rs.last().message_guid == g
            &&& rs.last().handle_id == h
            &&& rs.last().is_from_me == me
            &&& rs.last().reaction_type == t
            &&& rs.last().timestamp == now
        },
        m.has_message(g) ==> forall|i: int|
            0 <= i < m.reactions.len() && !(h is Some && m.reactions[i].message_guid == g
                && m.reactions[i].handle_id == h && m.reactions[i].reaction_type == t)
                ==> add_reaction(m, g, h, me, t, now).reactions.contains(#[trigger] m.reactions[i]),
        m.has_message(g) && h is Some ==> forall|i: int|
            0 <= i < add_reaction(m, g, h, me, t, now).reactions.len() - 1 ==> !({
                let x = #[trigger] add_reaction(m, g, h, me, t, now).reactions[i];
                x.message_guid == g && x.handle_id == h && x.reaction_type == t
            }),
{
    if m.has_message(g) {
        let m1 = add_reaction(m, g, h, me, t, now);
        let old = match h {
            Some(hh) => m.reaction_index(g, hh, t),
            None => -1,
        };
        let kept = if old >= 0 { m.reactions.remove(old) } else { m.reactions };
        assert(m1.reactions == kept.push(m1.reactions.last()));
        assert forall|i: int|
            0 <= i < m.reactions.len() && !(h is Some && m.reactions[i].message_guid == g
                && m.reactions[i].handle_id == h && m.reactions[i].reaction_type == t)
            implies m1.reactions.contains(#[trigger] m.reactions[i]) by {
            if old >= 0 {
                if i < old {
                    assert(m1.reactions[i] == m.reactions[i]);
                } else {
                    assert(i != old);
                    assert(m1.reactions[i - 1] == m.reactions[i]);
                }
            } else {
                assert(m1.reactions[i] == m.reactions[i]);
            }
        }
        if let Some(hh) = h {
            assert forall|i: int| 0 <= i < m1.reactions.len() - 1 implies !({
                let x = #[trigger] m1.reactions[i];
                x.message_guid == g && x.handle_id == h && x.reaction_type == t
            }) by {
                let j = if old >= 0 && i >= old { i + 1 } else { i };
                assert(m1.reactions[i] == m.reactions[j]);
                if m.reactions[j].message_guid == g && m.reactions[j].handle_id == h && m.reactions[j].reaction_type == t {
                    assert(m.has_reaction(g, hh, t));
                    assert(old >= 0);
                    assert(j != old);
                    assert(m.reactions[old].message_guid == g && m.reactions[old].handle_id == Some(hh)
                        && m.reactions[old].reaction_type == t);
                }
            }
        }
    }
}

/// Filing a handle that is accepted leaves exactly one handle under its
/// address and service, with the display name given and the id returned: a
/// handle there before keeps its id and creation time, a new one is created
/// `now`. Every other handle is left as it was.
pub proof fn lemma_upsert_handle_sets(m: StoreModel, a: Seq<char>, sv: Seq<char>, d: Seq<char>, now: i64)
    requires
        m.wf(),
        upsert_handle_result(m, a, sv) is Ok,
    ensures
        forall|i: int|
            0 <= i < upsert_handle(m, a, sv, d, now).handles.len() && #[trigger] upsert_handle(m, a, sv, d, now).handles[i].address
                == a && upsert_handle(m, a, sv, d, now).handles[i].service == sv ==> {
                let h = upsert_handle(m, a, sv, d, now).handles[i];
                &&& h.display_name == d
                &&& h.id == upsert_handle_result(m, a, sv)->Ok_0
                &&& if m.has_handle_key(a, sv) {
                    h.created_at == m.handles[m.handle_key_index(a, sv)].created_at
                } else {
                    h.created_at == now
                }
            },
        upsert_handle(m, a, sv, d, now).has_handle_key(a, sv),
        forall|i: int|
            0 <= i < m.handles.len() && !(m.handles[i].address == a && m.handles[i].service == sv)
                ==> #[trigger] upsert_handle(m, a, sv, d, now).handles[i] == m.handles[i],
{
    let m1 = upsert_handle(m, a, sv, d, now);
    let k = m.handle_key_index(a, sv);
    if k >= 0 {
        assert(m1.handles[k].address == a && m1.handles[k].service == sv);
        assert forall|i: int|
            0 <= i < m1.handles.len() && #[trigger] m1.handles[i].address == a && m1.handles[i].service == sv
            implies i == k by {
            if i != k {
                assert(m1.handles[i] == m.handles[i]);
                assert(m.handles[i] == m.handles[i] && m.handles[k] == m.handles[k]);
            }
        }
    } else {
        let n = m.handles.len() as int;
        assert(m1.handles[n].address == a && m1.handles[n].service == sv);
        assert forall|i: int|
            0 <= i < m1.handles.len() && #[trigger] m1.handles[i].address == a && m1.handles[i].service == sv
            implies i == n by {
            if i < n {
                assert(m1.handles[i] == m.handles[i]);
                assert(m.has_handle_key(a, sv));
            }
        }
    }
}

/// Filing a message that replaces one under the same guid drops that
/// message's reactions and keeps every other reaction; filing a new one
/// keeps all reactions. Chats other than the message's own are left as
/// they were, and a refused message leaves the store as it was.
pub proof fn lemma_insert_message_reactions(m: StoreModel, r: MessageRowView)
    requires
        m.wf(),
    ensures
        !message_accepted(m, r) ==> insert_message(m, r) == m,
        message_accepted(m, r) && !m.has_message(r.guid) ==> insert_message(m, r).reactions == m.reactions,
        message_accepted(m, r) ==> forall|i: int|
            0 <= i < insert_message(m, r).reactions.len()
                ==> (#[trigger] insert_message(m, r).reactions[i]).message_guid != r.guid
                    || !m.has_message(r.guid),
        message_accepted(m, r) ==> forall|i: int|
            0 <= i < m.reactions.len() && m.reactions[i].message_guid != r.guid
                ==> insert_message(m, r).reactions.contains(#[trigger] m.reactions[i]),
        message_accepted(m, r) ==> forall|j: int|
            0 <= j < m.chats.len() && m.chats[j].guid != r.chat_guid
                ==> #[trigger] insert_message(m, r).chats[j] == m.chats[j],
{
    if message_accepted(m, r) {
        let m1 = insert_message(m, r);
        let ci = m.chat_index(r.chat_guid);
        assert(m.chats[ci].guid == r.chat_guid);
        if m.has_message(r.guid) {
            let pred = |x: ReactionModel| x.message_guid != r.guid;
            lemma_filter_props(m.reactions, pred);
            assert forall|i: int| 0 <= i < m1.reactions.len() implies (#[trigger] m1.reactions[i]).message_guid != r.guid by {
                assert(m1.reactions.contains(m1.reactions[i]));
            }
            assert forall|i: int| 0 <= i < m.reactions.len() && m.reactions[i].message_guid != r.guid
                implies m1.reactions.contains(#[trigger] m.reactions[i]) by {
                assert(m.reactions.contains(m.reactions[i]));
            }
        } else {
            assert forall|i: int| 0 <= i < m.reactions.len() && m.reactions[i].message_guid != r.guid
                implies m1.reactions.contains(#[trigger] m.reactions[i]) by {
                assert(m1.reactions[i] == m.reactions[i]);
            }
        }
    }
}

} // verus!
