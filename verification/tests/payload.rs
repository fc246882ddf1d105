use wifiqr::wifi::{build_wifi_payload, escape_wifi_field, Security};

#[test]
fn builds_wifi_payload_matching_requested_order() {
    let payload =
        build_wifi_payload("2024shownet", Some("from-messe"), Security::Wpa, false).unwrap();
    assert_eq!(payload, "WIFI:S:2024shownet;T:WPA;P:from-messe;;");
}

#[test]
fn rejects_missing_password_for_protected_networks() {
    let error = build_wifi_payload("2024shownet", None, Security::Wpa, false)
        .unwrap_err()
        .message();

    assert_eq!(
        error,
        "--password is required unless --security nopass is used"
    );
}

#[test]
fn escapes_wifi_special_characters() {
    let escaped = escape_wifi_field(r#"a\b;c,d:e""#);
    assert_eq!(escaped, r#"a\\b\;c\,d\:e\""#);
}

#[test]
fn escapes_nothing_in_a_plain_field() {
    assert_eq!(escape_wifi_field("home network 5G"), "home network 5G");
    assert_eq!(escape_wifi_field(""), "");
}

#[test]
fn escaping_keeps_multibyte_characters() {
    assert_eq!(escape_wifi_field("カフェ;2F"), "カフェ\\;2F");
}

#[test]
fn open_network_payload_ignores_password() {
    let without = build_wifi_payload("cafe", None, Security::NoPass, false).unwrap();
    let with = build_wifi_payload("cafe", Some("secret"), Security::NoPass, false).unwrap();
    assert_eq!(without, "WIFI:S:cafe;T:nopass;;");
    assert_eq!(with, without);
}

#[test]
fn hidden_wep_network_payload() {
    let payload = build_wifi_payload("a:b", Some("p,w"), Security::Wep, true).unwrap();
    assert_eq!(payload, "WIFI:S:a\\:b;T:WEP;P:p\\,w;H:true;;");
}

#[test]
fn security_values() {
    assert_eq!(Security::Wpa.qr_value(), "WPA");
    assert_eq!(Security::Wep.qr_value(), "WEP");
    assert_eq!(Security::NoPass.qr_value(), "nopass");
    assert!(Security::Wpa.requires_password());
    assert!(Security::Wep.requires_password());
    assert!(!Security::NoPass.requires_password());
}
