//! The account state machine and the requests made of the protocol core.

use vstd::prelude::*;
use vstd::string::*;

use crate::session::{hash_password, sha256, LoginState};
use crate::text::{has_prefix, starts_with, str_eq, strip_prefixes, trim_start_matches};

verus! {

/// Where the client stands in pairing with a relay and signing in to an Apple ID.
#[derive(Clone, Debug)]
pub enum AuthState {
    NeedsHardwarePairing,
    NeedsCredentials,
    AuthenticatingAccount,
    NeedsTwoFactor,
    NeedsSmsTwoFactor,
    NeedsDeviceTwoFactor,
    NeedsExtraStep(String),
    Ready,
    Errored(String),
}

pub enum AuthStateView {
    NeedsHardwarePairing,
    NeedsCredentials,
    AuthenticatingAccount,
    NeedsTwoFactor,
    NeedsSmsTwoFactor,
    NeedsDeviceTwoFactor,
    NeedsExtraStep(Seq<char>),
    Ready,
    Errored(Seq<char>),
}

impl View for AuthState {
    type V = AuthStateView;

    open spec fn view(&self) -> AuthStateView {
        match self {
            AuthState::NeedsHardwarePairing => AuthStateView::NeedsHardwarePairing,
            AuthState::NeedsCredentials => AuthStateView::NeedsCredentials,
            AuthState::AuthenticatingAccount => AuthStateView::AuthenticatingAccount,
            AuthState::NeedsTwoFactor => AuthStateView::NeedsTwoFactor,
            AuthState::NeedsSmsTwoFactor => AuthStateView::NeedsSmsTwoFactor,
            AuthState::NeedsDeviceTwoFactor => AuthStateView::NeedsDeviceTwoFactor,
            AuthState::NeedsExtraStep(s) => AuthStateView::NeedsExtraStep(s@),
            AuthState::Ready => AuthStateView::Ready,
            AuthState::Errored(e) => AuthStateView::Errored(e@),
        }
    }
}

/// The persisted label of a state.
pub open spec fn label_of(s: AuthStateView) -> Seq<char> {
    match s {
        AuthStateView::NeedsHardwarePairing => "needs_pairing"@,
        AuthStateView::NeedsCredentials => "needs_credentials"@,
        AuthStateView::AuthenticatingAccount => "authenticating"@,
        AuthStateView::NeedsTwoFactor => "needs_2fa"@,
        AuthStateView::NeedsSmsTwoFactor => "needs_sms_2fa"@,
        AuthStateView::NeedsDeviceTwoFactor => "needs_device_2fa"@,
        AuthStateView::NeedsExtraStep(s) => "needs_extra:"@ + s,
        AuthStateView::Ready => "ready"@,
        AuthStateView::Errored(e) => "error:"@ + e,
    }
}

/// The state restored at start-up from its persisted label: without a relay
/// configuration the client must pair first; unknown or missing labels
/// mean the credentials are asked for again.
pub open spec fn restored_state(has_config: bool, stored: Option<Seq<char>>) -> AuthStateView {
    if !has_config {
        AuthStateView::NeedsHardwarePairing
    } else {
        match stored {
            Some(l) => if l == "ready"@ {
                AuthStateView::Ready
            } else if l == "authenticating"@ {
                AuthStateView::AuthenticatingAccount
            } else if l == "needs_2fa"@ {
                AuthStateView::NeedsTwoFactor
            } else if l == "needs_sms_2fa"@ {
                AuthStateView::NeedsSmsTwoFactor
            } else if l == "needs_device_2fa"@ {
                AuthStateView::NeedsDeviceTwoFactor
            } else if has_prefix(l, "needs_extra:"@) {
                AuthStateView::NeedsExtraStep(strip_prefixes(l, "needs_extra:"@))
            } else if has_prefix(l, "error:"@) {
                AuthStateView::Errored(strip_prefixes(l, "error:"@))
            } else {
                AuthStateView::NeedsCredentials
            },
            None => AuthStateView::NeedsCredentials,
        }
    }
}

/// A state persisted under its label is restored as it was, once the relay
/// is paired. The states left out do not come back: the pairing state (a
/// paired client asks for credentials), and a step or error text that itself
/// begins with its label's prefix (every leading repetition is stripped).
pub proof fn lemma_restore_label(s: AuthStateView)
    requires
        !(s is NeedsHardwarePairing),
        s matches AuthStateView::NeedsExtraStep(x) ==> !has_prefix(x, "needs_extra:"@),
        s matches AuthStateView::Errored(e) ==> !has_prefix(e, "error:"@),
    ensures
        restored_state(true, Some(label_of(s))) == s,
{
    reveal_strlit("ready");
    reveal_strlit("authenticating");
    reveal_strlit("needs_2fa");
    reveal_strlit("needs_sms_2fa");
    reveal_strlit("needs_device_2fa");
    reveal_strlit("needs_extra:");
    reveal_strlit("error:");
    reveal_strlit("needs_credentials");
    let l = label_of(s);
    let p = "needs_extra:"@;
    let q = "error:"@;
    match s {
        AuthStateView::NeedsExtraStep(x) => {
            assert(l.subrange(0, p.len() as int) =~= p);
            assert(l.subrange(p.len() as int, l.len() as int) =~= x);
            assert(l[0] == 'n' && l[6] == 'e');
            assert(l != "ready"@) by {
                assert("ready"@[0] == 'r');
            }
            assert(l != "authenticating"@) by {
                assert("authenticating"@[0] == 'a');
            }
            assert(l != "needs_2fa"@ && l != "needs_sms_2fa"@ && l != "needs_device_2fa"@) by {
                assert("needs_2fa"@[6] == '2');
                assert("needs_sms_2fa"@[6] == 's');
                assert("needs_device_2fa"@[6] == 'd');
            }
            assert(strip_prefixes(x, p) == x);
            assert(has_prefix(l, p));
            assert(strip_prefixes(l, p) == strip_prefixes(l.subrange(p.len() as int, l.len() as int), p));
            assert(strip_prefixes(l, p) == x);
            assert(restored_state(true, Some(l)) == AuthStateView::NeedsExtraStep(x));
        },
        AuthStateView::Errored(e) => {
            assert(l.subrange(0, q.len() as int) =~= q);
            assert(l.subrange(q.len() as int, l.len() as int) =~= e);
            assert(l[0] == 'e');
            assert(!has_prefix(l, p)) by {
                assert(l.len() < p.len() || l.subrange(0, p.len() as int)[0] != p[0]);
            }
            assert(strip_prefixes(e, q) == e);
        },
        AuthStateView::NeedsCredentials => {
            assert(!has_prefix(l, p)) by {
                assert(l.subrange(0, p.len() as int)[6] != p[6]);
            }
            assert(!has_prefix(l, q)) by {
                assert(l.subrange(0, q.len() as int)[0] != q[0]);
            }
            assert(l != "needs_2fa"@ && l != "needs_sms_2fa"@ && l != "needs_device_2fa"@) by {
                assert("needs_2fa"@[6] == '2');
                assert("needs_sms_2fa"@[6] == 's');
                assert("needs_device_2fa"@[6] == 'd');
            }
        },
        AuthStateView::Ready => {
            assert(restored_state(true, Some(l)) == s);
        },
        AuthStateView::AuthenticatingAccount => {
            assert(l.len() == 14 && "ready"@.len() == 5);
        },
        AuthStateView::NeedsTwoFactor => {
            assert(l.len() == 9 && "ready"@.len() == 5 && "authenticating"@.len() == 14);
        },
        AuthStateView::NeedsSmsTwoFactor => {
            assert(l.len() == 13 && "ready"@.len() == 5 && "authenticating"@.len() == 14 && "needs_2fa"@.len() == 9);
        },
        AuthStateView::NeedsDeviceTwoFactor => {
            assert(l.len() == 16 && "ready"@.len() == 5 && "authenticating"@.len() == 14 && "needs_2fa"@.len() == 9 && "needs_sms_2fa"@.len() == 13);
        },
        AuthStateView::NeedsHardwarePairing => {},
    }
}

/// Two account states with one label are one state: each label names its
/// state, and a step or error text follows its prefix whole.
pub proof fn lemma_label_injective(a: AuthStateView, b: AuthStateView)
    requires
        label_of(a) == label_of(b),
    ensures
        a == b,
{
    reveal_strlit("needs_pairing");
    reveal_strlit("needs_credentials");
    reveal_strlit("authenticating");
    reveal_strlit("needs_2fa");
    reveal_strlit("needs_sms_2fa");
    reveal_strlit("needs_device_2fa");
    reveal_strlit("needs_extra:");
    reveal_strlit("ready");
    reveal_strlit("error:");
    let la = label_of(a);
    let lb = label_of(b);
    assert(la[0] == lb[0]);
    assert(la.len() == lb.len());
    if la.len() > 6 {
        assert(la[6] == lb[6]);
    }
    match (a, b) {
        (AuthStateView::NeedsExtraStep(x), AuthStateView::NeedsExtraStep(y)) => {
            assert(x =~= la.subrange(12, la.len() as int));
            assert(y =~= lb.subrange(12, lb.len() as int));
        },
        (AuthStateView::Errored(x), AuthStateView::Errored(y)) => {
            assert(x =~= la.subrange(6, la.len() as int));
            assert(y =~= lb.subrange(6, lb.len() as int));
        },
        _ => {},
    }
}

impl AuthState {
    /// The label under which the state is persisted and reported.
    pub fn label(&self) -> (r: String)
        ensures
            r@ == label_of(self@),
    {
        match self {
            AuthState::NeedsHardwarePairing => String::from_str("needs_pairing"),
            AuthState::NeedsCredentials => String::from_str("needs_credentials"),
            AuthState::AuthenticatingAccount => String::from_str("authenticating"),
            AuthState::NeedsTwoFactor => String::from_str("needs_2fa"),
            AuthState::NeedsSmsTwoFactor => String::from_str("needs_sms_2fa"),
            AuthState::NeedsDeviceTwoFactor => String::from_str("needs_device_2fa"),
            AuthState::NeedsExtraStep(s) => {
                let mut r = String::from_str("needs_extra:");
                r.append(s.as_str());
                r
            },
            AuthState::Ready => String::from_str("ready"),
            AuthState::Errored(e) => {
                let mut r = String::from_str("error:");
                r.append(e.as_str());
                r
            },
        }
    }

    /// A copy of the state.
    pub fn duplicate(&self) -> (r: AuthState)
        ensures
            r@ == self@,
    {
        match self {
            AuthState::NeedsHardwarePairing => AuthState::NeedsHardwarePairing,
            AuthState::NeedsCredentials => AuthState::NeedsCredentials,
            AuthState::AuthenticatingAccount => AuthState::AuthenticatingAccount,
            AuthState::NeedsTwoFactor => AuthState::NeedsTwoFactor,
            AuthState::NeedsSmsTwoFactor => AuthState::NeedsSmsTwoFactor,
            AuthState::NeedsDeviceTwoFactor => AuthState::NeedsDeviceTwoFactor,
            AuthState::NeedsExtraStep(s) => AuthState::NeedsExtraStep(s.clone()),
            AuthState::Ready => AuthState::Ready,
            AuthState::Errored(e) => AuthState::Errored(e.clone()),
        }
    }

    /// The state restored at start-up from the persisted label `stored`,
    /// given whether a relay configuration was found.
    pub fn restore(has_config: bool, stored: Option<String>) -> (r: AuthState)
        ensures
            r@ == restored_state(has_config, match stored {
                Some(s) => Some(s@),
                None => None,
            }),
    {
        if !has_config {
            return AuthState::NeedsHardwarePairing;
        }
        match stored {
            None => AuthState::NeedsCredentials,
            Some(l) => {
                let l = l.as_str();
                if str_eq(l, "ready") {
                    AuthState::Ready
                } else if str_eq(l, "authenticating") {
                    AuthState::AuthenticatingAccount
                } else if str_eq(l, "needs_2fa") {
                    AuthState::NeedsTwoFactor
                } else if str_eq(l, "needs_sms_2fa") {
                    AuthState::NeedsSmsTwoFactor
                } else if str_eq(l, "needs_device_2fa") {
                    AuthState::NeedsDeviceTwoFactor
                } else if starts_with(l, "needs_extra:") {
                    AuthState::NeedsExtraStep(trim_start_matches(l, "needs_extra:"))
                } else if starts_with(l, "error:") {
                    AuthState::Errored(trim_start_matches(l, "error:"))
                } else {
                    AuthState::NeedsCredentials
                }
            },
        }
    }

    /// The state that a sign-in step of the protocol core leads to.
    pub fn from_login_state(ls: &LoginState) -> (r: AuthState)
        ensures
            r@ == state_after_login(*ls),
    {
        match ls {
            LoginState::LoggedIn => AuthState::Ready,
            LoginState::Needs2FAVerification => AuthState::NeedsTwoFactor,
            LoginState::NeedsSMS2FA => AuthState::NeedsSmsTwoFactor,
            LoginState::NeedsSMS2FAVerification => AuthState::NeedsSmsTwoFactor,
            LoginState::NeedsDevice2FA => AuthState::NeedsDeviceTwoFactor,
            LoginState::NeedsExtraStep(s) => AuthState::NeedsExtraStep(s.clone()),
            LoginState::NeedsLogin => AuthState::NeedsCredentials,
        }
    }
}

/// The account state that a sign-in state leads to.
pub open spec fn state_after_login(ls: LoginState) -> AuthStateView {
    match ls {
        LoginState::LoggedIn => AuthStateView::Ready,
        LoginState::Needs2FAVerification => AuthStateView::NeedsTwoFactor,
        LoginState::NeedsSMS2FA => AuthStateView::NeedsSmsTwoFactor,
        LoginState::NeedsSMS2FAVerification => AuthStateView::NeedsSmsTwoFactor,
        LoginState::NeedsDevice2FA => AuthStateView::NeedsDeviceTwoFactor,
        LoginState::NeedsExtraStep(s) => AuthStateView::NeedsExtraStep(s@),
        LoginState::NeedsLogin => AuthStateView::NeedsCredentials,
    }
}

/// A request that the protocol core turned down, with its reason.
#[derive(Clone, Debug)]
pub struct IntegrationError {
    pub message: String,
}

fn refuse<T>(message: &str) -> (r: Result<T, IntegrationError>)
    ensures
        r matches Err(e) && e.message@ == message@,
{
    Err(IntegrationError { message: String::from_str(message) })
}

/// Checks a sign-in request: both the Apple ID and the password are
/// needed. Returns the password hashed as the sign-in takes it.
pub fn login_request(apple_id: &str, password: &str) -> (r: Result<Vec<u8>, IntegrationError>)
    ensures
        (apple_id@.len() == 0 || password@.len() == 0) ==> (r matches Err(e) && e.message@
            == "apple_id and password are required"@),
        (apple_id@.len() > 0 && password@.len() > 0) ==> (r matches Ok(h) && h@ == sha256(
            password.spec_bytes(),
        )),
{
    if apple_id.is_empty() || password.is_empty() {
        return refuse("apple_id and password are required");
    }
    Ok(hash_password(password))
}

/// Checks a two-factor code before it is submitted: it must not be empty.
pub fn two_factor_request(code: &str) -> (r: Result<String, IntegrationError>)
    ensures
        code@.len() == 0 ==> (r matches Err(e) && e.message@ == "2fa code is required"@),
        code@.len() > 0 ==> (r matches Ok(c) && c@ == code@),
{
    if code.is_empty() {
        return refuse("2fa code is required");
    }
    Ok(String::from_str(code))
}

/// Sending a message is not wired to the protocol core yet: always refused.
pub fn send_imessage(_chat_guid: &str, _participant_addresses: &[String], _text: &str) -> (r: Result<String, IntegrationError>)
    ensures
        r matches Err(e) && e.message@
            == "send_imessage: not yet wired \u{2014} needs IDS registration (do_login) and IMClient; next commit"@,
{
    refuse("send_imessage: not yet wired \u{2014} needs IDS registration (do_login) and IMClient; next commit")
}

/// Sending with attachments is not wired yet: always refused.
pub fn send_imessage_with_attachments(
    _chat_guid: &str,
    _participant_addresses: &[String],
    _text: &str,
    _attachment_paths: &[String],
) -> (r: Result<String, IntegrationError>)
    ensures
        r matches Err(e) && e.message@
            == "send_imessage_with_attachments: not yet wired \u{2014} depends on MMCS upload path"@,
{
    refuse("send_imessage_with_attachments: not yet wired \u{2014} depends on MMCS upload path")
}

/// Sending a tapback is not wired yet: always refused.
pub fn send_tapback(_message_guid: &str, _reaction: &str) -> (r: Result<(), IntegrationError>)
    ensures
        r matches Err(e) && e.message@ == "send_tapback: not yet wired \u{2014} tapback path in api.rs"@,
{
    refuse("send_tapback: not yet wired \u{2014} tapback path in api.rs")
}

/// Sending an edit is not wired yet: always refused.
pub fn send_edit(_message_guid: &str, _new_text: &str) -> (r: Result<(), IntegrationError>)
    ensures
        r matches Err(e) && e.message@ == "send_edit: not yet wired \u{2014} edit path in api.rs"@,
{
    refuse("send_edit: not yet wired \u{2014} edit path in api.rs")
}

/// Sending an unsend is not wired yet: always refused.
pub fn send_unsend(_message_guid: &str) -> (r: Result<(), IntegrationError>)
    ensures
        r matches Err(e) && e.message@ == "send_unsend: not yet wired \u{2014} unsend path in api.rs"@,
{
    refuse("send_unsend: not yet wired \u{2014} unsend path in api.rs")
}

/// Sending a typing indicator is not wired yet: always refused.
pub fn send_typing(_chat_guid: &str, _typing: bool) -> (r: Result<(), IntegrationError>)
    ensures
        r matches Err(e) && e.message@ == "send_typing: not yet wired \u{2014} typing indicator path in api.rs"@,
{
    refuse("send_typing: not yet wired \u{2014} typing indicator path in api.rs")
}

/// Starting a FaceTime call is not wired yet: always refused.
pub fn start_facetime(_address: &str) -> (r: Result<String, IntegrationError>)
    ensures
        r matches Err(e) && e.message@ == "start_facetime: not yet wired \u{2014} FaceTime path in api.rs"@,
{
    refuse("start_facetime: not yet wired \u{2014} FaceTime path in api.rs")
}

/// Listing shared albums is not wired yet: always refused.
pub fn list_shared_albums() -> (r: Result<Vec<String>, IntegrationError>)
    ensures
        r matches Err(e) && e.message@ == "list_shared_albums: not yet wired \u{2014} shared albums path in api.rs"@,
{
    refuse("list_shared_albums: not yet wired \u{2014} shared albums path in api.rs")
}

} // verus!
