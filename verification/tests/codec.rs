//! Tests for the descriptor codec and the base64 transport encoding.

use session_dialog::base64::base64_decode;
use session_dialog::base64::base64_encode;
use session_dialog::codec::DecodeError;
use session_dialog::config::DialogConfig;
use session_dialog::config::DialogKind;

fn priv_config(command: &str, timeout_secs: Option<u32>) -> DialogConfig {
    DialogConfig {
        kind: DialogKind::PrivilegeEscalation { command: command.to_string() },
        timeout_secs,
    }
}

fn net_config() -> DialogConfig {
    DialogConfig {
        kind: DialogKind::NetworkConnection {
            process: "firefox".to_string(),
            process_path: "/usr/lib/firefox/firefox".to_string(),
            destination: "api.anthropic.com".to_string(),
            port: 443,
            protocol: "TCP".to_string(),
        },
        timeout_secs: Some(10),
    }
}

fn generic_config() -> DialogConfig {
    DialogConfig {
        kind: DialogKind::Generic {
            title: "Confirm".to_string(),
            message: "Proceed?".to_string(),
            detail: "rm -rf /tmp/scratch".to_string(),
        },
        timeout_secs: None,
    }
}

#[test]
fn bytes_round_trip_privilege_escalation() {
    let c = priv_config("/usr/bin/pacman -Syu", None);
    let bytes = c.to_bytes();
    assert_eq!(DialogConfig::from_bytes(&bytes), Ok(c));
}

#[test]
fn bytes_round_trip_network_connection() {
    let c = net_config();
    let bytes = c.to_bytes();
    assert_eq!(DialogConfig::from_bytes(&bytes), Ok(c));
}

#[test]
fn bytes_round_trip_generic() {
    let c = generic_config();
    let bytes = c.to_bytes();
    assert_eq!(DialogConfig::from_bytes(&bytes), Ok(c));
}

#[test]
fn token_round_trip_all_kinds() {
    for c in [priv_config("run as root", Some(30)), net_config(), generic_config()] {
        let token = c.encode();
        assert_eq!(DialogConfig::decode(&token), Ok(c));
    }
}

#[test]
fn token_round_trip_non_ascii_text() {
    // Exercises the UTF-8 boundary: multi-byte characters must survive.
    let c = priv_config("π → ∞ … ряд", Some(1));
    let token = c.encode();
    assert_eq!(DialogConfig::decode(&token), Ok(c));
}

#[test]
fn token_round_trip_empty_strings() {
    let c = DialogConfig {
        kind: DialogKind::Generic {
            title: String::new(),
            message: String::new(),
            detail: String::new(),
        },
        timeout_secs: Some(0x01020304),
    };
    let token = c.encode();
    assert_eq!(DialogConfig::decode(&token), Ok(c));
}

#[test]
fn base64_known_vectors() {
    assert_eq!(base64_encode(b""), "");
    assert_eq!(base64_encode(b"M"), "TQ==");
    assert_eq!(base64_encode(b"Ma"), "TWE=");
    assert_eq!(base64_encode(b"Man"), "TWFu");
    assert_eq!(base64_encode(b"hello"), "aGVsbG8=");
    assert_eq!(base64_encode(&[0xfb, 0xff, 0xbf]), "+/+/");
}

#[test]
fn base64_round_trip_all_tail_lengths() {
    // Plaintext lengths covering remainders 0, 1 and 2 modulo 3,
    // the empty input included.
    for len in 0..=9usize {
        let data: Vec<u8> = (0..len as u8).map(|b| b.wrapping_mul(37).wrapping_add(11)).collect();
        let token = base64_encode(&data);
        assert_eq!(token.len() % 4, 0);
        assert_eq!(base64_decode(&token), Ok(data));
    }
}

#[test]
fn base64_decode_rejects_bad_length() {
    assert_eq!(base64_decode("AAA"), Err("invalid base64 length"));
    assert_eq!(base64_decode("A"), Err("invalid base64 length"));
    assert_eq!(base64_decode("AAAAA"), Err("invalid base64 length"));
}

#[test]
fn base64_decode_rejects_bad_character() {
    assert_eq!(base64_decode("AB!A"), Err("invalid base64 character"));
    assert_eq!(base64_decode("AAAA AAA"), Err("invalid base64 character"));
    // A bad character in a complete group is seen before the short tail.
    assert_eq!(base64_decode("A!AAB"), Err("invalid base64 character"));
}

#[test]
fn base64_decode_accepts_padding_anywhere() {
    // '=' decodes as value 0 wherever it stands; only the third and
    // fourth positions suppress output bytes.
    assert_eq!(base64_decode("TQ=="), Ok(b"M".to_vec()));
    assert_eq!(base64_decode("TWE="), Ok(b"Ma".to_vec()));
}

#[test]
fn decode_rejects_bad_transport_length() {
    assert_eq!(DialogConfig::decode("AAA"), Err(DecodeError::TransportLength));
}

#[test]
fn decode_rejects_bad_transport_character() {
    assert_eq!(DialogConfig::decode("AB!A"), Err(DecodeError::TransportCharacter));
}

#[test]
fn decode_rejects_malformed_payload() {
    // Valid transport encoding of bytes that are no descriptor image.
    assert_eq!(DialogConfig::decode("AAAA"), Err(DecodeError::MalformedPayload));
    assert_eq!(DialogConfig::decode(""), Err(DecodeError::MalformedPayload));
}

#[test]
fn from_bytes_rejects_wrong_version_truncation_and_trailing() {
    let c = priv_config("x", None);
    let good = c.to_bytes();

    let mut wrong_version = good.clone();
    wrong_version[0] = 2;
    assert_eq!(DialogConfig::from_bytes(&wrong_version), Err(DecodeError::MalformedPayload));

    let truncated = &good[..good.len() - 1];
    assert_eq!(DialogConfig::from_bytes(truncated), Err(DecodeError::MalformedPayload));

    let mut trailing = good.clone();
    trailing.push(0);
    assert_eq!(DialogConfig::from_bytes(&trailing), Err(DecodeError::MalformedPayload));

    assert_eq!(DialogConfig::from_bytes(&[]), Err(DecodeError::MalformedPayload));
}

#[test]
fn from_bytes_rejects_bad_kind_tag_and_bad_utf8() {
    let c = priv_config("ab", None);
    let mut bad_tag = c.to_bytes();
    bad_tag[1] = 9;
    assert_eq!(DialogConfig::from_bytes(&bad_tag), Err(DecodeError::MalformedPayload));

    // Corrupt the string payload into invalid UTF-8.
    let mut bad_utf8 = c.to_bytes();
    let n = bad_utf8.len();
    bad_utf8[n - 2] = 0xff;
    assert_eq!(DialogConfig::from_bytes(&bad_utf8), Err(DecodeError::MalformedPayload));
}

#[test]
fn token_is_argument_safe() {
    let token = net_config().encode();
    assert!(token.chars().all(|ch| ch.is_ascii_alphanumeric() || ch == '+' || ch == '/' || ch == '='));
}
