use whatbubbles_core::integration::{
    list_shared_albums, login_request, send_edit, send_imessage, send_imessage_with_attachments,
    send_tapback, send_typing, send_unsend, start_facetime, two_factor_request, AuthState,
};
use whatbubbles_core::session::{hash_password, login_state_label, LoginState};

fn all_states() -> Vec<AuthState> {
    vec![
        AuthState::NeedsCredentials,
        AuthState::AuthenticatingAccount,
        AuthState::NeedsTwoFactor,
        AuthState::NeedsSmsTwoFactor,
        AuthState::NeedsDeviceTwoFactor,
        AuthState::NeedsExtraStep("trusted phone".to_string()),
        AuthState::Ready,
        AuthState::Errored("bad password".to_string()),
    ]
}

#[test]
fn each_state_has_its_label() {
    let labels: Vec<String> = all_states().iter().map(|s| s.label()).collect();
    assert_eq!(
        labels,
        vec![
            "needs_credentials",
            "authenticating",
            "needs_2fa",
            "needs_sms_2fa",
            "needs_device_2fa",
            "needs_extra:trusted phone",
            "ready",
            "error:bad password",
        ]
    );
    assert_eq!(AuthState::NeedsHardwarePairing.label(), "needs_pairing");
}

#[test]
fn a_stored_label_restores_its_state() {
    for s in all_states() {
        let back = AuthState::restore(true, Some(s.label()));
        assert_eq!(back.label(), s.label());
    }
}

#[test]
fn restoring_without_a_pairing_asks_for_one() {
    let s = AuthState::restore(false, Some("ready".to_string()));
    assert!(matches!(s, AuthState::NeedsHardwarePairing));
    let s = AuthState::restore(false, None);
    assert!(matches!(s, AuthState::NeedsHardwarePairing));
}

#[test]
fn unknown_or_missing_labels_ask_for_credentials() {
    assert!(matches!(AuthState::restore(true, None), AuthState::NeedsCredentials));
    assert!(matches!(AuthState::restore(true, Some("needs_pairing".to_string())), AuthState::NeedsCredentials));
    assert!(matches!(AuthState::restore(true, Some("Ready".to_string())), AuthState::NeedsCredentials));
    assert!(matches!(AuthState::restore(true, Some(String::new())), AuthState::NeedsCredentials));
}

#[test]
fn a_repeated_prefix_is_stripped_whole() {
    match AuthState::restore(true, Some("error:error:x".to_string())) {
        AuthState::Errored(e) => assert_eq!(e, "x"),
        other => panic!("unexpected {:?}", other),
    }
    match AuthState::restore(true, Some("needs_extra:".to_string())) {
        AuthState::NeedsExtraStep(s) => assert_eq!(s, ""),
        other => panic!("unexpected {:?}", other),
    }
}

#[test]
fn duplicate_keeps_the_state() {
    for s in all_states() {
        assert_eq!(s.duplicate().label(), s.label());
    }
}

#[test]
fn sign_in_steps_lead_to_account_states() {
    let cases = vec![
        (LoginState::LoggedIn, "ready", "logged_in"),
        (LoginState::Needs2FAVerification, "needs_2fa", "needs_2fa"),
        (LoginState::NeedsSMS2FA, "needs_sms_2fa", "needs_sms_2fa"),
        (LoginState::NeedsSMS2FAVerification, "needs_sms_2fa", "needs_sms_2fa_verify"),
        (LoginState::NeedsDevice2FA, "needs_device_2fa", "needs_device_2fa"),
        (LoginState::NeedsExtraStep("x".to_string()), "needs_extra:x", "needs_extra_step"),
        (LoginState::NeedsLogin, "needs_credentials", "needs_login"),
    ];
    for (ls, state, label) in cases {
        assert_eq!(AuthState::from_login_state(&ls).label(), state);
        assert_eq!(login_state_label(&ls), label);
    }
}

#[test]
fn the_password_is_hashed_with_sha256() {
    let h = hash_password("password");
    let hex: String = h.iter().map(|b| format!("{:02x}", b)).collect();
    assert_eq!(hex, "5e884898da28047151d0e56f8dc6292773603d0d6aabbdd62a11ef721d1542d8");
    let e = hash_password("");
    let hex: String = e.iter().map(|b| format!("{:02x}", b)).collect();
    assert_eq!(hex, "e3b0c44298fc1c149afbf4c8996fb92427ae41e4649b934ca495991b7852b855");
}

#[test]
fn a_sign_in_needs_both_fields() {
    assert_eq!(login_request("", "pw").unwrap_err().message, "apple_id and password are required");
    assert_eq!(login_request("me@example.com", "").unwrap_err().message, "apple_id and password are required");
    let h = login_request("me@example.com", "password").unwrap();
    assert_eq!(h, hash_password("password"));
}

#[test]
fn a_two_factor_code_must_not_be_empty() {
    assert_eq!(two_factor_request("").unwrap_err().message, "2fa code is required");
    assert_eq!(two_factor_request("123456").unwrap(), "123456");
}

#[test]
fn unwired_requests_are_refused_with_their_reason() {
    assert_eq!(
        send_imessage("c", &[], "hi").unwrap_err().message,
        "send_imessage: not yet wired \u{2014} needs IDS registration (do_login) and IMClient; next commit"
    );
    assert_eq!(
        send_imessage_with_attachments("c", &[], "hi", &["a.png".to_string()]).unwrap_err().message,
        "send_imessage_with_attachments: not yet wired \u{2014} depends on MMCS upload path"
    );
    assert_eq!(send_tapback("m", "love").unwrap_err().message, "send_tapback: not yet wired \u{2014} tapback path in api.rs");
    assert_eq!(send_edit("m", "t").unwrap_err().message, "send_edit: not yet wired \u{2014} edit path in api.rs");
    assert_eq!(send_unsend("m").unwrap_err().message, "send_unsend: not yet wired \u{2014} unsend path in api.rs");
    assert_eq!(
        send_typing("c", true).unwrap_err().message,
        "send_typing: not yet wired \u{2014} typing indicator path in api.rs"
    );
    assert_eq!(start_facetime("a").unwrap_err().message, "start_facetime: not yet wired \u{2014} FaceTime path in api.rs");
    assert_eq!(
        list_shared_albums().unwrap_err().message,
        "list_shared_albums: not yet wired \u{2014} shared albums path in api.rs"
    );
}

#[test]
fn no_two_states_share_a_label() {
    let mut states = all_states();
    states.push(AuthState::NeedsHardwarePairing);
    states.push(AuthState::NeedsExtraStep("ready".to_string()));
    states.push(AuthState::Errored("needs_2fa".to_string()));
    let labels: Vec<String> = states.iter().map(|s| s.label()).collect();
    for i in 0..labels.len() {
        for j in 0..labels.len() {
            if i != j {
                assert_ne!(labels[i], labels[j]);
            }
        }
    }
}
