//! What the core reports to the interface, and the queue it is reported through.

use crossbeam_channel::{unbounded, Receiver, Sender};
use vstd::prelude::*;
use vstd::string::*;

verus! {

/// Something the interface should learn of.
#[derive(Clone, Debug)]
pub enum Event {
    Info(String),
    Warn(String),
    Error(String),
    ChatCreated { chat_guid: String },
    ChatUpdated { chat_guid: String },
    MessageArrived { chat_guid: String, message_guid: String },
    MessageSent { chat_guid: String, message_guid: String },
    MessageFailed { chat_guid: String, tentative_guid: String, reason: String },
    AuthStateChanged { state: String },
    TypingStatusChanged { chat_guid: String, is_typing: bool },
}

pub enum EventView {
    Info(Seq<char>),
    Warn(Seq<char>),
    Error(Seq<char>),
    ChatCreated { chat_guid: Seq<char> },
    ChatUpdated { chat_guid: Seq<char> },
    MessageArrived { chat_guid: Seq<char>, message_guid: Seq<char> },
    MessageSent { chat_guid: Seq<char>, message_guid: Seq<char> },
    MessageFailed { chat_guid: Seq<char>, tentative_guid: Seq<char>, reason: Seq<char> },
    AuthStateChanged { state: Seq<char> },
    TypingStatusChanged { chat_guid: Seq<char>, is_typing: bool },
}

impl View for Event {
    type V = EventView;

    open spec fn view(&self) -> EventView {
        match self {
            Event::Info(t) => EventView::Info(t@),
            Event::Warn(t) => EventView::Warn(t@),
            Event::Error(t) => EventView::Error(t@),
            Event::ChatCreated { chat_guid } => EventView::ChatCreated { chat_guid: chat_guid@ },
            Event::ChatUpdated { chat_guid } => EventView::ChatUpdated { chat_guid: chat_guid@ },
            Event::MessageArrived { chat_guid, message_guid } => EventView::MessageArrived {
                chat_guid: chat_guid@,
                message_guid: message_guid@,
            },
            Event::MessageSent { chat_guid, message_guid } => EventView::MessageSent {
                chat_guid: chat_guid@,
                message_guid: message_guid@,
            },
            Event::MessageFailed { chat_guid, tentative_guid, reason } => EventView::MessageFailed {
                chat_guid: chat_guid@,
                tentative_guid: tentative_guid@,
                reason: reason@,
            },
            Event::AuthStateChanged { state } => EventView::AuthStateChanged { state: state@ },
            Event::TypingStatusChanged { chat_guid, is_typing } => EventView::TypingStatusChanged {
                chat_guid: chat_guid@,
                is_typing: *is_typing,
            },
        }
    }
}

/// An event as the interface receives it: a kind, a text, the chat and
/// message it concerns, and a flag.
#[derive(Clone, Debug)]
pub struct EventDto {
    pub kind: String,
    pub text: String,
    pub chat_guid: String,
    pub message_guid: String,
    pub flag: bool,
}

pub struct EventDtoView {
    pub kind: Seq<char>,
    pub text: Seq<char>,
    pub chat_guid: Seq<char>,
    pub message_guid: Seq<char>,
    pub flag: bool,
}

impl View for EventDto {
    type V = EventDtoView;

    open spec fn view(&self) -> EventDtoView {
        EventDtoView {
            kind: self.kind@,
            text: self.text@,
            chat_guid: self.chat_guid@,
            message_guid: self.message_guid@,
            flag: self.flag,
        }
    }
}

pub open spec fn dto_of(kind: Seq<char>, text: Seq<char>, chat_guid: Seq<char>, message_guid: Seq<char>, flag: bool) -> EventDtoView {
    EventDtoView { kind, text, chat_guid, message_guid, flag }
}

/// How each event is handed to the interface.
pub open spec fn event_dto(e: EventView) -> EventDtoView {
    let none = Seq::<char>::empty();
    match e {
        EventView::Info(t) => dto_of("info"@, t, none, none, false),
        EventView::Warn(t) => dto_of("warn"@, t, none, none, false),
        EventView::Error(t) => dto_of("error"@, t, none, none, false),
        EventView::ChatCreated { chat_guid } => dto_of("chat_created"@, none, chat_guid, none, false),
        EventView::ChatUpdated { chat_guid } => dto_of("chat_updated"@, none, chat_guid, none, false),
        EventView::MessageArrived { chat_guid, message_guid } => dto_of(
            "message_arrived"@,
            none,
            chat_guid,
            message_guid,
            false,
        ),
        EventView::MessageSent { chat_guid, message_guid } => dto_of(
            "message_sent"@,
            none,
            chat_guid,
            message_guid,
            false,
        ),
        EventView::MessageFailed { chat_guid, tentative_guid, reason } => dto_of(
            "message_failed"@,
            reason,
            chat_guid,
            tentative_guid,
            false,
        ),
        EventView::AuthStateChanged { state } => dto_of("auth_state"@, state, none, none, false),
        EventView::TypingStatusChanged { chat_guid, is_typing } => dto_of(
            "typing"@,
            none,
            chat_guid,
            none,
            is_typing,
        ),
    }
}

/// Builds the record handed to the interface.
pub fn dto(kind: &str, text: String, chat_guid: &str, message_guid: &str, flag: bool) -> (r: EventDto)
    ensures
        r@ == dto_of(kind@, text@, chat_guid@, message_guid@, flag),
{
    EventDto {
        kind: String::from_str(kind),
        text,
        chat_guid: String::from_str(chat_guid),
        message_guid: String::from_str(message_guid),
        flag,
    }
}

/// The record the interface receives for an event.
pub fn event_to_dto(ev: Event) -> (r: EventDto)
    ensures
        r@ == event_dto(ev@),
{
    proof {
        reveal_strlit("");
        assert(""@ =~= Seq::<char>::empty());
    }
    match ev {
        Event::Info(t) => dto("info", t, "", "", false),
        Event::Warn(t) => dto("warn", t, "", "", false),
        Event::Error(t) => dto("error", t, "", "", false),
        Event::ChatCreated { chat_guid } => dto("chat_created", String::new(), chat_guid.as_str(), "", false),
        Event::ChatUpdated { chat_guid } => dto("chat_updated", String::new(), chat_guid.as_str(), "", false),
        Event::MessageArrived { chat_guid, message_guid } => dto(
            "message_arrived",
            String::new(),
            chat_guid.as_str(),
            message_guid.as_str(),
            false,
        ),
        Event::MessageSent { chat_guid, message_guid } => dto(
            "message_sent",
            String::new(),
            chat_guid.as_str(),
            message_guid.as_str(),
            false,
        ),
        Event::MessageFailed { chat_guid, tentative_guid, reason } => dto(
            "message_failed",
            reason,
            chat_guid.as_str(),
            tentative_guid.as_str(),
            false,
        ),
        Event::AuthStateChanged { state } => dto("auth_state", state, "", "", false),
        Event::TypingStatusChanged { chat_guid, is_typing } => dto(
            "typing",
            String::new(),
            chat_guid.as_str(),
            "",
            is_typing,
        ),
    }
}

#[verifier::external_type_specification]
#[verifier::external_body]
#[verifier::reject_recursive_types(T)]
pub struct ExSender<T>(Sender<T>);

#[verifier::external_type_specification]
#[verifier::external_body]
#[verifier::reject_recursive_types(T)]
pub struct ExReceiver<T>(Receiver<T>);

/// The events waiting at the receiving end of a channel, oldest first.
pub uninterp spec fn channel_events(rx: Receiver<Event>) -> Seq<EventView>;

/// A first-in, first-out queue of events: both ends of one unbounded
/// `crossbeam_channel`, owned together.
pub struct EventBus {
    tx: Sender<Event>,
    rx: Receiver<Event>,
}

impl EventBus {
    /// The events the bus holds, oldest first.
    pub closed spec fn queue(&self) -> Seq<EventView> {
        channel_events(self.rx)
    }
}

/// Calls `crossbeam_channel::unbounded`; claims that the new channel holds
/// no event.
#[verifier::external_body]
fn open_channel() -> (r: (Sender<Event>, Receiver<Event>))
    ensures
        channel_events(r.1) == Seq::<EventView>::empty(),
{
    unbounded()
}

/// Calls `Sender::send` on the bus's own channel; claims that the event
/// joins the end of the queue. The bus holds the receiving end, so the
/// channel is never disconnected and the send does not fail.
#[verifier::external_body]
fn channel_send(bus: &mut EventBus, ev: Event)
    ensures
        channel_events(final(bus).rx) == channel_events(old(bus).rx).push(ev@),
{
    let _ = bus.tx.send(ev);
}

/// Calls `Receiver::try_recv` on the bus's own channel; claims that it
/// takes the oldest event off the queue, or finds the queue empty and leaves
/// it so. The bus holds the sending end, so the channel is never
/// disconnected.
#[verifier::external_body]
fn channel_try_recv(bus: &mut EventBus) -> (r: Option<Event>)
    ensures
        match r {
            Some(e) => channel_events(old(bus).rx).len() > 0 && e@ == channel_events(old(bus).rx)[0]
                && channel_events(final(bus).rx) == channel_events(old(bus).rx).drop_first(),
            None => channel_events(old(bus).rx).len() == 0 && channel_events(final(bus).rx)
                == channel_events(old(bus).rx),
        },
{
    bus.rx.try_recv().ok()
}

impl EventBus {
    /// A bus holding no event.
    pub fn new() -> (r: EventBus)
        ensures
            r.queue() == Seq::<EventView>::empty(),
    {
        let (tx, rx) = open_channel();
        EventBus { tx, rx }
    }

    /// Adds an event at the end of the queue.
    pub fn send(&mut self, ev: Event)
        ensures
            final(self).queue() == old(self).queue().push(ev@),
    {
        channel_send(self, ev);
    }

    /// Takes every queued event, oldest first, leaving the queue empty.
    pub fn drain(&mut self) -> (r: Vec<Event>)
        ensures
            r@.map_values(|e: Event| e@) == old(self).queue(),
            final(self).queue() == Seq::<EventView>::empty(),
    {
        let ghost start = old(self).queue();
        let mut out: Vec<Event> = Vec::new();
        assert(out@.map_values(|e: Event| e@) + self.queue() =~= start);
        loop
            invariant
                start == old(self).queue(),
                out@.map_values(|e: Event| e@) + self.queue() == start,
            decreases self.queue().len(),
        {
            match channel_try_recv(self) {
                Some(ev) => {
                    let ghost q = self.queue();
                    proof {
                        assert(out@.push(ev).map_values(|e: Event| e@) =~= out@.map_values(|e: Event| e@).push(ev@));
                    }
                    out.push(ev);
                    proof {
                        assert(out@.map_values(|e: Event| e@) + q =~= start);
                    }
                },
                None => {
                    proof {
                        assert(out@.map_values(|e: Event| e@) =~= start);
                        assert(self.queue() =~= Seq::<EventView>::empty());
                    }
                    return out;
                },
            }
        }
    }
}

impl Default for EventBus {
    fn default() -> (r: EventBus)
        ensures
            r.queue() == Seq::<EventView>::empty(),
    {
        EventBus::new()
    }
}

} // verus!
