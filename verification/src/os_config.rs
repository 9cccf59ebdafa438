//! The relay configuration: how the client pairs with a relay host, where
//! it keeps its files, and the identifiers it makes up for itself.

use rand::rngs::ThreadRng;
use rand::Rng;
use uuid::Uuid;
use vstd::prelude::*;
use vstd::string::*;

use crate::text::{concat, decimal, decimal_string, hex_bytes, push_hex};

verus! {

/// The relay a fresh installation pairs with.
pub const DEFAULT_RELAY_HOST: &'static str = "https://hw.openbubbles.app";

/// What the client keeps of its pairing with a relay.
#[derive(Clone, Debug)]
pub struct RelayConfig {
    /// The version information the relay sent, as it was received.
    pub version: String,
    pub icloud_ua: String,
    pub aoskit_version: String,
    pub dev_uuid: String,
    pub protocol_version: u32,
    pub host: String,
    pub code: String,
    pub beeper_token: Option<String>,
    pub udid: Option<String>,
}

pub struct RelayConfigView {
    pub version: Seq<char>,
    pub icloud_ua: Seq<char>,
    pub aoskit_version: Seq<char>,
    pub dev_uuid: Seq<char>,
    pub protocol_version: u32,
    pub host: Seq<char>,
    pub code: Seq<char>,
    pub beeper_token: Option<Seq<char>>,
    pub udid: Option<Seq<char>>,
}

pub open spec fn opt_view(o: Option<String>) -> Option<Seq<char>> {
    match o {
        Some(s) => Some(s@),
        None => None,
    }
}

impl View for RelayConfig {
    type V = RelayConfigView;

    open spec fn view(&self) -> RelayConfigView {
        RelayConfigView {
            version: self.version@,
            icloud_ua: self.icloud_ua@,
            aoskit_version: self.aoskit_version@,
            dev_uuid: self.dev_uuid@,
            protocol_version: self.protocol_version,
            host: self.host@,
            code: self.code@,
            beeper_token: opt_view(self.beeper_token),
            udid: opt_view(self.udid),
        }
    }
}

pub fn copy_opt(o: &Option<String>) -> (r: Option<String>)
    ensures
        opt_view(r) == opt_view(*o),
{
    match o {
        Some(s) => Some(s.clone()),
        None => None,
    }
}

impl RelayConfig {
    /// A copy of the configuration.
    pub fn duplicate(&self) -> (r: RelayConfig)
        ensures
            r@ == self@,
    {
        RelayConfig {
            version: self.version.clone(),
            icloud_ua: self.icloud_ua.clone(),
            aoskit_version: self.aoskit_version.clone(),
            dev_uuid: self.dev_uuid.clone(),
            protocol_version: self.protocol_version,
            host: self.host.clone(),
            code: self.code.clone(),
            beeper_token: copy_opt(&self.beeper_token),
            udid: copy_opt(&self.udid),
        }
    }
}

/// The configuration made from a successful pairing.
pub open spec fn paired_config(
    host: Seq<char>,
    code: Seq<char>,
    beeper_token: Option<Seq<char>>,
    version: Seq<char>,
    dev_uuid: Seq<char>,
    udid: Seq<char>,
) -> RelayConfigView {
    RelayConfigView {
        version,
        icloud_ua: "com.apple.iCloudHelper/282 CFNetwork/1408.0.4 Darwin/22.5.0"@,
        aoskit_version: "com.apple.AOSKit/282 (com.apple.accountsd/113)"@,
        dev_uuid,
        protocol_version: 1660,
        host,
        code,
        beeper_token,
        udid: Some(udid),
    }
}

/// Builds the configuration of a pairing with `host` under `code`, from the
/// relay's version information and the identifiers made up for the device.
pub fn relay_config_from(
    host: &str,
    code: &str,
    beeper_token: Option<String>,
    version: String,
    dev_uuid: String,
    udid: String,
) -> (r: RelayConfig)
    ensures
        r@ == paired_config(host@, code@, opt_view(beeper_token), version@, dev_uuid@, udid@),
{
    RelayConfig {
        version,
        icloud_ua: String::from_str("com.apple.iCloudHelper/282 CFNetwork/1408.0.4 Darwin/22.5.0"),
        aoskit_version: String::from_str("com.apple.AOSKit/282 (com.apple.accountsd/113)"),
        dev_uuid,
        protocol_version: 1660,
        host: String::from_str(host),
        code: String::from_str(code),
        beeper_token,
        udid: Some(udid),
    }
}

#[verifier::external_type_specification]
#[verifier::external_body]
pub struct ExThreadRng(ThreadRng);


/// Calls `rand::thread_rng`. Nothing is claimed of the generator.
#[verifier::external_body]
fn thread_rng() -> ThreadRng {
    rand::thread_rng()
}

/// Calls `Rng::gen` for 32 random bytes; claims only that there are 32 of them.
#[verifier::external_body]
fn random_32_bytes(rng: &mut ThreadRng) -> (r: Vec<u8>)
    ensures
        r@.len() == 32,
{
    let b: [u8; 32] = rng.gen();
    b.to_vec()
}

/// Calls `Uuid::new_v4` and reads its 16 bytes with `Uuid::as_bytes`;
/// claims that there are 16 and that the version and variant bits are those
/// `new_v4` sets (version 4, variant `10`). Nothing is claimed of the
/// random bits.
#[verifier::external_body]
fn uuid_v4_bytes() -> (r: Vec<u8>)
    ensures
        r@.len() == 16,
        is_v4(r@),
{
    Uuid::new_v4().as_bytes().to_vec()
}

/// The text of a device identifier: each byte as two upper-case hexadecimal digits.
pub fn udid_from_bytes(bytes: &Vec<u8>) -> (r: String)
    ensures
        r@ == hex_bytes(bytes@, true),
{
    let mut r = String::new();
    push_hex(&mut r, bytes.as_slice(), 0, bytes.len(), true);
    assert(bytes@.subrange(0, bytes@.len() as int) =~= bytes@);
    r
}

/// A fresh device identifier: 32 random bytes in upper-case hexadecimal.
pub fn generate_udid() -> (r: String)
    ensures
        exists|b: Seq<u8>| b.len() == 32 && r@ == hex_bytes(b, true),
{
    let mut rng = thread_rng();
    let bytes = random_32_bytes(&mut rng);
    udid_from_bytes(&bytes)
}

/// The bytes of a random UUID carry version 4 in the high half of byte 6
/// and the variant bits `10` at the top of byte 8.
pub open spec fn is_v4(b: Seq<u8>) -> bool {
    b[6] / 16 == 4 && b[8] / 64 == 2
}

/// The hyphenated lower-case form of a 16-byte UUID: 8-4-4-4-12 digits.
pub open spec fn hyphenated(b: Seq<u8>) -> Seq<char> {
    hex_bytes(b.subrange(0, 4), false) + "-"@ + hex_bytes(b.subrange(4, 6), false) + "-"@
        + hex_bytes(b.subrange(6, 8), false) + "-"@ + hex_bytes(b.subrange(8, 10), false) + "-"@
        + hex_bytes(b.subrange(10, 16), false)
}

/// The hyphenated text of a UUID given by its 16 bytes.
pub fn uuid_text(b: &Vec<u8>) -> (r: String)
    requires
        b@.len() == 16,
    ensures
        r@ == hyphenated(b@),
{
    let mut r = String::new();
    let s = b.as_slice();
    push_hex(&mut r, s, 0, 4, false);
    r.append("-");
    push_hex(&mut r, s, 4, 6, false);
    r.append("-");
    push_hex(&mut r, s, 6, 8, false);
    r.append("-");
    push_hex(&mut r, s, 8, 10, false);
    r.append("-");
    push_hex(&mut r, s, 10, 16, false);
    r
}

/// A fresh random (version 4) UUID in its hyphenated text form.
pub fn new_uuid_string() -> (r: String)
    ensures
        exists|b: Seq<u8>| b.len() == 16 && is_v4(b) && r@ == hyphenated(b),
{
    let b = uuid_v4_bytes();
    uuid_text(&b)
}

/// The configuration of a pairing with `host` under `code`, given the
/// relay's version information: a fresh device UUID and identifier are
/// made up for it.
pub fn new_relay_config(host: &str, code: &str, beeper_token: Option<String>, version: String) -> (r: RelayConfig)
    ensures
        exists|u: Seq<u8>, d: Seq<u8>|
            u.len() == 16 && is_v4(u) && d.len() == 32 && r@ == paired_config(
                host@,
                code@,
                opt_view(beeper_token),
                version@,
                hyphenated(u),
                hex_bytes(d, true),
            ),
{
    let dev_uuid = new_uuid_string();
    let udid = generate_udid();
    relay_config_from(host, code, beeper_token, version, dev_uuid, udid)
}

/// The first `n` characters of `s`, or all of them.
pub open spec fn prefix_of(s: Seq<char>, n: int) -> Seq<char> {
    if s.len() <= n {
        s
    } else {
        s.take(n)
    }
}

/// One line describing the pairing: its host, the start of its code, its
/// device identifier and protocol version; or "none".
pub open spec fn config_summary(cfg: Option<RelayConfigView>) -> Seq<char> {
    match cfg {
        None => "none"@,
        Some(c) => "host="@ + c.host + " code="@ + prefix_of(c.code, 8) + "\u{2026} udid="@ + match c.udid {
            Some(u) => u,
            None => Seq::empty(),
        } + " proto="@ + decimal(c.protocol_version as nat),
    }
}

/// One line describing the pairing, or "none".
pub fn os_config_summary_of(cfg: &Option<RelayConfig>) -> (r: String)
    ensures
        r@ == config_summary(match cfg {
            Some(c) => Some(c@),
            None => None,
        }),
{
    match cfg {
        None => String::from_str("none"),
        Some(c) => {
            let mut r = String::from_str("host=");
            r.append(c.host.as_str());
            r.append(" code=");
            let n = c.code.as_str().unicode_len();
            let k = if n < 8 { n } else { 8 };
            r.append(c.code.as_str().substring_char(0, k));
            r.append("\u{2026} udid=");
            match &c.udid {
                Some(u) => r.append(u.as_str()),
                None => {},
            }
            r.append(" proto=");
            let v = decimal_string(c.protocol_version as u64);
            r.append(v.as_str());
            proof {
                if n <= 8 {
                    assert(c.code@.subrange(0, n as int) =~= c.code@);
                }
                reveal_strlit("");
            }
            r
        },
    }
}

/// Whether `c` separates the parts of a path here.
pub open spec fn is_separator(c: char, main: char) -> bool {
    c == '/' || c == main
}

/// Whether `dir` is a bare drive on a platform whose separator is `\`: a
/// letter and a colon, nothing more (`C:`).
pub open spec fn is_bare_drive(dir: Seq<char>, main: char) -> bool {
    &&& main == '\\'
    &&& dir.len() == 2
    &&& dir[1] == ':'
    &&& (('a' as u32 <= dir[0] as u32 <= 'z' as u32) || ('A' as u32 <= dir[0] as u32 <= 'Z' as u32))
}

/// The relative file `name` placed inside the directory `dir`: a separator
/// goes between them unless `dir` is empty, already ends with one, or is a
/// bare drive (which names the drive's current directory: `C:` and `x` give
/// `C:x`).
pub open spec fn join_path(dir: Seq<char>, name: Seq<char>, main: char) -> Seq<char> {
    if dir.len() == 0 || is_separator(dir.last(), main) || is_bare_drive(dir, main) {
        dir + name
    } else {
        dir + seq![main] + name
    }
}

/// Reads `std::path::MAIN_SEPARATOR`; claims that it is `/` or `\`.
#[verifier::external_body]
fn main_separator() -> (c: char)
    ensures
        c == '/' || c == '\\',
{
    std::path::MAIN_SEPARATOR
}

/// The relative file `name` placed inside the directory `dir`, as
/// `Path::join` places a name with no root and no prefix; a directory with a
/// verbatim prefix (`\\?\`) is not normalised as `Path::join` normalises it.
pub(crate) fn join_in(dir: &str, name: &str) -> (r: String)
    ensures
        exists|main: char| (main == '/' || main == '\\') && r@ == join_path(dir@, name@, main),
{
    let main = main_separator();
    let n = dir.unicode_len();
    if n == 0 {
        let r = concat(dir, name);
        assert(r@ == join_path(dir@, name@, main));
        return r;
    }
    let last = dir.get_char(n - 1);
    if last == '/' || last == main {
        let r = concat(dir, name);
        assert(r@ == join_path(dir@, name@, main));
        return r;
    }
    if main == '\\' && n == 2 && last == ':' {
        let d = dir.get_char(0);
        if ('a' <= d && d <= 'z') || ('A' <= d && d <= 'Z') {
            let r = concat(dir, name);
            assert(r@ == join_path(dir@, name@, main));
            return r;
        }
    }
    let mut r = String::from_str(dir);
    if main == '/' {
        proof { reveal_strlit("/"); }
        r.append("/");
    } else {
        proof { reveal_strlit("\\"); }
        r.append("\\");
    }
    r.append(name);
    assert(r@ =~= join_path(dir@, name@, main));
    r
}

/// Where the relay configuration is kept in the data directory.
pub fn config_path(data_dir: &str) -> (r: String)
    ensures
        exists|main: char| (main == '/' || main == '\\') && r@ == join_path(data_dir@, "os_config.json"@, main),
{
    join_in(data_dir, "os_config.json")
}

} // verus!
