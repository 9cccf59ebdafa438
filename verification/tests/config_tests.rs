use whatbubbles_core::clock::{epoch_seconds, now_epoch};
use whatbubbles_core::os_config::{
    config_path, generate_udid, new_relay_config, new_uuid_string, os_config_summary_of,
    relay_config_from, udid_from_bytes, uuid_text, DEFAULT_RELAY_HOST,
};
use whatbubbles_core::session::{anisette_dir, aps_state_path, identity_path};

fn sep() -> char {
    std::path::MAIN_SEPARATOR
}

#[test]
fn the_default_relay_host() {
    assert_eq!(DEFAULT_RELAY_HOST, "https://hw.openbubbles.app");
}

#[test]
fn a_device_identifier_is_upper_case_hex() {
    assert_eq!(udid_from_bytes(&vec![0x00, 0x1f, 0xab, 0xff]), "001FABFF");
    assert_eq!(udid_from_bytes(&Vec::new()), "");
    let u = generate_udid();
    assert_eq!(u.len(), 64);
    assert!(u.chars().all(|c| c.is_ascii_digit() || ('A'..='F').contains(&c)));
    assert_ne!(generate_udid(), u);
}

#[test]
fn a_uuid_is_written_hyphenated_in_lower_case() {
    let b: Vec<u8> = (0u8..16).map(|i| i * 17).collect();
    assert_eq!(uuid_text(&b), "00112233-4455-6677-8899-aabbccddeeff");
    let s = new_uuid_string();
    assert_eq!(s.len(), 36);
    let parsed = uuid::Uuid::parse_str(&s).unwrap();
    assert_eq!(parsed.hyphenated().to_string(), s);
    assert_eq!(parsed.get_version_num(), 4);
}

#[test]
fn a_pairing_carries_the_fixed_agent_strings() {
    let c = relay_config_from(
        "https://relay.example",
        "ABCDEFGHIJ",
        Some("tok".to_string()),
        "{\"v\":1}".to_string(),
        "dev".to_string(),
        "UDID".to_string(),
    );
    assert_eq!(c.icloud_ua, "com.apple.iCloudHelper/282 CFNetwork/1408.0.4 Darwin/22.5.0");
    assert_eq!(c.aoskit_version, "com.apple.AOSKit/282 (com.apple.accountsd/113)");
    assert_eq!(c.protocol_version, 1660);
    assert_eq!(c.host, "https://relay.example");
    assert_eq!(c.code, "ABCDEFGHIJ");
    assert_eq!(c.beeper_token.as_deref(), Some("tok"));
    assert_eq!(c.version, "{\"v\":1}");
    assert_eq!(c.dev_uuid, "dev");
    assert_eq!(c.udid.as_deref(), Some("UDID"));
    let d = c.duplicate();
    assert_eq!((d.host, d.code, d.udid), (c.host.clone(), c.code.clone(), c.udid.clone()));
}

#[test]
fn a_new_pairing_makes_up_its_identifiers() {
    let c = new_relay_config("https://relay.example", "CODE", None, "v".to_string());
    assert_eq!(c.dev_uuid.len(), 36);
    assert_eq!(c.udid.as_ref().map(|u| u.len()), Some(64));
    assert_eq!(c.beeper_token, None);
    assert_eq!(c.protocol_version, 1660);
}

#[test]
fn the_summary_shows_the_start_of_the_code() {
    assert_eq!(os_config_summary_of(&None), "none");
    let c = relay_config_from("h", "ABCDEFGHIJ", None, String::new(), String::new(), "U1".to_string());
    assert_eq!(os_config_summary_of(&Some(c)), "host=h code=ABCDEFGH\u{2026} udid=U1 proto=1660");
    let mut short = relay_config_from("h", "AB", None, String::new(), String::new(), String::new());
    short.udid = None;
    assert_eq!(os_config_summary_of(&Some(short)), "host=h code=AB\u{2026} udid= proto=1660");
}

#[test]
fn files_are_placed_inside_the_data_directory() {
    let s = sep();
    assert_eq!(config_path("/data"), format!("/data{s}os_config.json"));
    assert_eq!(config_path("/data/"), "/data/os_config.json");
    assert_eq!(config_path(""), "os_config.json");
    assert_eq!(aps_state_path("d"), format!("d{s}aps_state.json"));
    assert_eq!(identity_path("d"), format!("d{s}identity.json"));
    assert_eq!(anisette_dir("d"), format!("d{s}anisette"));
    assert_eq!(config_path("a"), std::path::Path::new("a").join("os_config.json").to_string_lossy());
    assert_eq!(config_path("C:"), std::path::Path::new("C:").join("os_config.json").to_string_lossy());
}

#[test]
fn the_clock_reading() {
    assert_eq!(epoch_seconds(None), 0);
    assert_eq!(epoch_seconds(Some(1_700_000_000)), 1_700_000_000);
    assert_eq!(epoch_seconds(Some(u64::MAX)), -1);
    assert!(now_epoch() > 1_600_000_000);
}

#[test]
fn fresh_uuids_are_version_four() {
    for _ in 0..8 {
        let s = new_uuid_string();
        let b: Vec<char> = s.chars().collect();
        assert_eq!(b[14], '4');
        assert!(matches!(b[19], '8' | '9' | 'a' | 'b'));
    }
}
