use whatbubbles_core::events::{dto, event_to_dto, Event, EventBus};

fn kinds(bus: &mut EventBus) -> Vec<String> {
    bus.drain()
        .into_iter()
        .map(|e| event_to_dto(e).kind)
        .collect()
}

#[test]
fn the_bus_hands_events_out_oldest_first() {
    let mut bus = EventBus::new();
    assert!(bus.drain().is_empty());
    bus.send(Event::Info("one".to_string()));
    bus.send(Event::ChatUpdated { chat_guid: "c".to_string() });
    bus.send(Event::Warn("two".to_string()));
    assert_eq!(kinds(&mut bus), vec!["info", "chat_updated", "warn"]);
    assert!(bus.drain().is_empty());
    bus.send(Event::Error("three".to_string()));
    let rest = bus.drain();
    assert_eq!(rest.len(), 1);
    assert_eq!(event_to_dto(rest.into_iter().next().unwrap()).text, "three");
}

#[test]
fn a_default_bus_is_empty() {
    let mut bus = EventBus::default();
    assert!(bus.drain().is_empty());
}

#[test]
fn each_event_maps_to_its_record() {
    let d = event_to_dto(Event::MessageFailed {
        chat_guid: "chat".to_string(),
        tentative_guid: "temp-1".to_string(),
        reason: "offline".to_string(),
    });
    assert_eq!(
        (d.kind.as_str(), d.text.as_str(), d.chat_guid.as_str(), d.message_guid.as_str(), d.flag),
        ("message_failed", "offline", "chat", "temp-1", false)
    );
    let d = event_to_dto(Event::TypingStatusChanged { chat_guid: "chat".to_string(), is_typing: true });
    assert_eq!((d.kind.as_str(), d.text.as_str(), d.chat_guid.as_str(), d.message_guid.as_str(), d.flag), ("typing", "", "chat", "", true));
    let d = event_to_dto(Event::AuthStateChanged { state: "ready".to_string() });
    assert_eq!((d.kind.as_str(), d.text.as_str(), d.chat_guid.as_str()), ("auth_state", "ready", ""));
    let d = event_to_dto(Event::MessageArrived { chat_guid: "c".to_string(), message_guid: "m".to_string() });
    assert_eq!((d.kind.as_str(), d.chat_guid.as_str(), d.message_guid.as_str()), ("message_arrived", "c", "m"));
    let d = event_to_dto(Event::MessageSent { chat_guid: "c".to_string(), message_guid: "m".to_string() });
    assert_eq!((d.kind.as_str(), d.chat_guid.as_str(), d.message_guid.as_str()), ("message_sent", "c", "m"));
    let d = event_to_dto(Event::ChatCreated { chat_guid: "c".to_string() });
    assert_eq!((d.kind.as_str(), d.chat_guid.as_str(), d.message_guid.as_str()), ("chat_created", "c", ""));
    let d = event_to_dto(Event::Error("bad".to_string()));
    assert_eq!((d.kind.as_str(), d.text.as_str()), ("error", "bad"));
}

#[test]
fn dto_copies_its_fields() {
    let d = dto("k", "t".to_string(), "c", "m", true);
    assert_eq!((d.kind.as_str(), d.text.as_str(), d.chat_guid.as_str(), d.message_guid.as_str(), d.flag), ("k", "t", "c", "m", true));
}
