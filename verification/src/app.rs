//! The state of a running client: its store, event queue, account state,
//! relay pairing and relay host.

use vstd::prelude::*;
use vstd::string::*;

use crate::events::{Event, EventBus, EventView};
use crate::integration::{AuthState, AuthStateView, label_of, restored_state};
use crate::os_config::{RelayConfig, RelayConfigView, DEFAULT_RELAY_HOST};
use crate::storage::Storage;
use crate::text::concat;
use crate::store_model::{StoreModel, StorageError, kv_set, kv_value, seed_demo, seed_demo_result};

verus! {

/// A running client.
pub struct AppState {
    data_dir: String,
    storage: Storage,
    events: EventBus,
    auth: AuthState,
    os_config: Option<RelayConfig>,
    relay_host: String,
}

pub struct AppView {
    pub data_dir: Seq<char>,
    pub store: StoreModel,
    pub events: Seq<EventView>,
    pub auth: AuthStateView,
    pub config: Option<RelayConfigView>,
    pub relay_host: Seq<char>,
}

impl View for AppState {
    type V = AppView;

    closed spec fn view(&self) -> AppView {
        AppView {
            data_dir: self.data_dir@,
            store: self.storage@,
            events: self.events.queue(),
            auth: self.auth@,
            config: match self.os_config {
                Some(c) => Some(c@),
                None => None,
            },
            relay_host: self.relay_host@,
        }
    }
}

/// The relay host a client starts with: the one stored, else the default.
pub open spec fn starting_host(m: StoreModel) -> Seq<char> {
    match kv_value(m, "relay.host"@) {
        Some(h) => h,
        None => DEFAULT_RELAY_HOST@,
    }
}

/// The client after its account state became `s`: the label is stored and reported.
pub open spec fn with_auth(a: AppView, s: AuthStateView) -> AppView {
    AppView {
        auth: s,
        store: kv_set(a.store, "auth.state"@, label_of(s)),
        events: a.events.push(EventView::AuthStateChanged { state: label_of(s) }),
        ..a
    }
}

impl AppState {
    /// Starts a client on a loaded store and relay configuration: the
    /// sample conversations are filed where the store has no chat, the
    /// relay host is the stored one or the default, and the account state
    /// is restored from its stored label.
    pub fn open(data_dir: &str, storage: Storage, os_config: Option<RelayConfig>) -> (r: Result<AppState, StorageError>)
        requires
            storage@.wf(),
        ensures
            exists|now: i64|
                #![trigger seed_demo(storage@, now)]
                match seed_demo_result(storage@, now) {
                    Ok(()) => r matches Ok(app) && app@.store == seed_demo(storage@, now),
                    Err(e) => r matches Err(f) && f == e,
                },
            r matches Ok(app) ==> {
                    &&& app@.store.wf()
                    &&& app@.data_dir == data_dir@
                    &&& app@.events == Seq::<EventView>::empty()
                    &&& app@.config == match os_config {
                        Some(c) => Some(c@),
                        None => None,
                    }
                    &&& app@.relay_host == starting_host(app@.store)
                    &&& app@.auth == restored_state(os_config is Some, kv_value(app@.store, "auth.state"@))
                },
    {
        let mut storage = storage;
        match storage.seed_demo_data() {
            Ok(()) => {},
            Err(e) => {
                return Err(e);
            },
        }
        let relay_host = match storage.kv_get("relay.host") {
            Ok(Some(h)) => h,
            _ => String::from_str(DEFAULT_RELAY_HOST),
        };
        let has_config = os_config.is_some();
        let stored = if has_config {
            match storage.kv_get("auth.state") {
                Ok(o) => o,
                Err(_) => None,
            }
        } else {
            None
        };
        let auth = AuthState::restore(has_config, stored);
        Ok(AppState {
            data_dir: String::from_str(data_dir),
            storage,
            events: EventBus::new(),
            auth,
            os_config,
            relay_host,
        })
    }

    /// The store of a client.
    pub fn storage(&self) -> (r: &Storage)
        ensures
            r@ == self@.store,
    {
        &self.storage
    }

    /// The data directory the client was started in.
    pub fn data_dir(&self) -> (r: String)
        ensures
            r@ == self@.data_dir,
    {
        self.data_dir.clone()
    }

    /// Reports an event to the interface.
    pub fn notify(&mut self, ev: Event)
        ensures
            final(self)@ == (AppView { events: old(self)@.events.push(ev@), ..old(self)@ }),
    {
        self.events.send(ev);
    }

    /// Moves the account to state `state`, stores its label and reports it.
    pub fn set_auth(&mut self, state: AuthState)
        requires
            old(self)@.store.wf(),
        ensures
            final(self)@ == with_auth(old(self)@, state@),
            final(self)@.store.wf(),
    {
        let label = state.label();
        self.auth = state;
        match self.storage.kv_set("auth.state", label.as_str()) {
            Ok(()) => {},
            Err(e) => {
                let text = concat("failed to persist auth state: ", e.message().as_str());
                self.events.send(Event::Warn(text));
            },
        }
        self.events.send(Event::AuthStateChanged { state: label });
    }

    /// The label of the account state.
    pub fn auth_label(&self) -> (r: String)
        ensures
            r@ == label_of(self@.auth),
    {
        self.auth.label()
    }

    /// Sets the relay host and stores it.
    pub fn set_relay_host(&mut self, host: String) -> (r: Result<(), StorageError>)
        requires
            old(self)@.store.wf(),
        ensures
            r is Ok,
            final(self)@ == (AppView {
                relay_host: host@,
                store: kv_set(old(self)@.store, "relay.host"@, host@),
                ..old(self)@
            }),
            final(self)@.store.wf(),
    {
        let r = self.storage.kv_set("relay.host", host.as_str());
        self.relay_host = host;
        r
    }

    /// The relay host.
    pub fn relay_host(&self) -> (r: String)
        ensures
            r@ == self@.relay_host,
    {
        self.relay_host.clone()
    }

    /// Takes up the relay configuration of a new pairing.
    pub fn persist_os_config(&mut self, cfg: RelayConfig) -> (r: Result<(), StorageError>)
        ensures
            r is Ok,
            final(self)@ == (AppView { config: Some(cfg@), ..old(self)@ }),
    {
        self.os_config = Some(cfg);
        Ok(())
    }

    /// Forgets the relay configuration.
    pub fn clear_os_config(&mut self) -> (r: Result<(), StorageError>)
        ensures
            r is Ok,
            final(self)@ == (AppView { config: None, ..old(self)@ }),
    {
        self.os_config = None;
        Ok(())
    }

    /// Whether the client is paired with a relay.
    pub fn has_os_config(&self) -> (r: bool)
        ensures
            r == self@.config is Some,
    {
        self.os_config.is_some()
    }

    /// The relay configuration, where the client is paired.
    pub fn os_config(&self) -> (r: &Option<RelayConfig>)
        ensures
            self@.config == match *r {
                Some(c) => Some(c@),
                None => None,
            },
    {
        &self.os_config
    }

    /// Takes every reported event, oldest first.
    pub fn drain_events(&mut self) -> (r: Vec<Event>)
        ensures
            r@.map_values(|e: Event| e@) == old(self)@.events,
            final(self)@ == (AppView { events: Seq::empty(), ..old(self)@ }),
    {
        self.events.drain()
    }

    /// The store, for a change made through it.
    pub fn storage_mut(&mut self) -> (r: &mut Storage)
        ensures
            r@ == old(self)@.store,
            final(self)@ == (AppView { store: final(r)@, ..old(self)@ }),
    {
        &mut self.storage
    }
}

} // verus!
