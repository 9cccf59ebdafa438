//! What a sign-in session needs of the client: where it keeps its files,
//! how it labels sign-in states, and how it hashes the password.

use sha2::{Digest, Sha256};
use vstd::prelude::*;
use vstd::string::*;

use crate::os_config::{join_in, join_path};

verus! {

/// Where a sign-in attempt with the protocol core stands.
pub enum LoginState {
    LoggedIn,
    Needs2FAVerification,
    NeedsSMS2FA,
    NeedsSMS2FAVerification,
    NeedsDevice2FA,
    NeedsExtraStep(String),
    NeedsLogin,
}

/// The label under which a sign-in state is logged.
pub open spec fn login_label_of(ls: LoginState) -> Seq<char> {
    match ls {
        LoginState::LoggedIn => "logged_in"@,
        LoginState::NeedsDevice2FA => "needs_device_2fa"@,
        LoginState::Needs2FAVerification => "needs_2fa"@,
        LoginState::NeedsSMS2FA => "needs_sms_2fa"@,
        LoginState::NeedsSMS2FAVerification => "needs_sms_2fa_verify"@,
        LoginState::NeedsExtraStep(_) => "needs_extra_step"@,
        LoginState::NeedsLogin => "needs_login"@,
    }
}

/// The label under which a sign-in state is logged.
pub fn login_state_label(state: &LoginState) -> (r: &'static str)
    ensures
        r@ == login_label_of(*state),
{
    match state {
        LoginState::LoggedIn => "logged_in",
        LoginState::NeedsDevice2FA => "needs_device_2fa",
        LoginState::Needs2FAVerification => "needs_2fa",
        LoginState::NeedsSMS2FA => "needs_sms_2fa",
        LoginState::NeedsSMS2FAVerification => "needs_sms_2fa_verify",
        LoginState::NeedsExtraStep(_) => "needs_extra_step",
        LoginState::NeedsLogin => "needs_login",
    }
}

/// The SHA-256 digest of `data`, as `sha2` computes it.
pub uninterp spec fn sha256(data: Seq<u8>) -> Seq<u8>;

/// Calls `sha2::Sha256::digest`; claims that the result is the digest of
/// `data` and is 32 bytes long.
#[verifier::external_body]
fn sha256_digest(data: &[u8]) -> (r: Vec<u8>)
    ensures
        r@ == sha256(data@),
        r@.len() == 32,
{
    Sha256::digest(data).to_vec()
}

/// The password as the sign-in takes it: the SHA-256 digest of its UTF-8 bytes.
pub fn hash_password(password: &str) -> (r: Vec<u8>)
    ensures
        r@ == sha256(password.spec_bytes()),
        r@.len() == 32,
{
    sha256_digest(password.as_bytes())
}

/// Where the push connection state is kept in the data directory.
pub fn aps_state_path(data_dir: &str) -> (r: String)
    ensures
        exists|main: char| (main == '/' || main == '\\') && r@ == join_path(data_dir@, "aps_state.json"@, main),
{
    join_in(data_dir, "aps_state.json")
}

/// Where the device identity is kept in the data directory.
pub fn identity_path(data_dir: &str) -> (r: String)
    ensures
        exists|main: char| (main == '/' || main == '\\') && r@ == join_path(data_dir@, "identity.json"@, main),
{
    join_in(data_dir, "identity.json")
}

/// The directory of the anisette provider's files in the data directory.
pub fn anisette_dir(data_dir: &str) -> (r: String)
    ensures
        exists|main: char| (main == '/' || main == '\\') && r@ == join_path(data_dir@, "anisette"@, main),
{
    join_in(data_dir, "anisette")
}

} // verus!
