use base64::Engine;

use licore::checksum::actokey_text;
use licore::envelope::{decode_envelope, encode_envelope, version_tag, Envelope};
use licore::text::{contains_bytes, str_eq};
use licore::{LiClient, LiCoreV1, LiError};

const FP: &str = "4c4c4544-0042-3310-8035-b4c04f435831";

fn create_test_client() -> LiClient {
    LiClient::new(LiCoreV1 {
        act_aes_key: *b"TestKeyABC123456",
        act_aes_padding: Some("PKCS7"),
        lic_aes_key: *b"TestKeyABC123456",
        lic_aes_padding: Some("PKCS7"),
    })
}

#[test]
fn test_actokey_known_vector() {
    // CRC-16/IBM-SDLC (X.25) of "123456789" is 0x906E.
    assert_eq!(actokey_text(b"123456789"), "906E");
    assert_eq!(actokey_text(b""), "0000");
}

#[test]
fn test_envelope_round_trip() {
    let env = Envelope {
        version: version_tag(),
        session_id: "abc-123".to_string(),
        payload: "QUJD".to_string(),
        sys_info: Vec::new(),
    };
    let bytes = encode_envelope(&env);
    let back = decode_envelope(&bytes).unwrap();
    assert_eq!(back.version, "LiCoreV1.0.0");
    assert_eq!(back.session_id, "abc-123");
    assert_eq!(back.payload, "QUJD");
    assert!(back.sys_info.is_empty());
}

#[test]
fn test_envelope_wire_format_is_json() {
    // The encoded token is base64 around a JSON object with the documented
    // fields, as an independent JSON reader sees it.
    let client = create_test_client();
    let token = client.gen_actoken(FP).unwrap();
    let json_bytes = base64::engine::general_purpose::STANDARD.decode(&token).unwrap();
    let v: serde_json::Value = serde_json::from_slice(&json_bytes).unwrap();

    assert_eq!(v["ver"], "LiCoreV1.0.0");
    assert!(v["uuid"].as_str().unwrap().len() == 36);
    assert!(v["token"].is_string());
    assert_eq!(v["sys_info"].as_array().unwrap().len(), 0);
    // The payload is itself valid base64.
    assert!(base64::engine::general_purpose::STANDARD
        .decode(v["token"].as_str().unwrap())
        .is_ok());
}

#[test]
fn test_version_mismatch() {
    let client = create_test_client();
    let json = "{\"ver\":\"LiCoreV9.9.9\",\"uuid\":\"abc\",\"token\":\"QUJD\",\"sys_info\":[]}";
    let text = base64::engine::general_purpose::STANDARD.encode(json);
    let r = client.verify_license(text, FP);
    assert_eq!(r.unwrap_err(), LiError::VersionMismatch);
}

#[test]
fn test_tampered_ciphertext() {
    // A structurally valid envelope of the right revision around garbage
    // ciphertext: an acceptable outcome is a false result or a decryption
    // error, never a pass.
    let client = create_test_client();
    let garbage = base64::engine::general_purpose::STANDARD.encode([7u8; 32]);
    let json = format!(
        "{{\"ver\":\"LiCoreV1.0.0\",\"uuid\":\"abc\",\"token\":\"{}\",\"sys_info\":[]}}",
        garbage
    );
    let text = base64::engine::general_purpose::STANDARD.encode(json);
    match client.verify_license(text, FP) {
        Ok(passed) => assert!(!passed),
        Err(e) => assert_eq!(e, LiError::CryptoFailure),
    }
}

#[test]
fn test_malformed_envelope_structure() {
    let client = create_test_client();
    // Valid base64 and valid JSON, but not the expected schema.
    let json = "{\"ver\":\"LiCoreV1.0.0\",\"uuid\":\"abc\"}";
    let text = base64::engine::general_purpose::STANDARD.encode(json);
    let r = client.verify_license(text, FP);
    assert_eq!(r.unwrap_err(), LiError::MalformedEnvelope);
}

#[test]
fn test_contains_bytes() {
    assert!(contains_bytes(b"12;abc;xyz;", b"abc;"));
    assert!(!contains_bytes(b"12;abc;xyz;", b"abd;"));
    assert!(contains_bytes(b"anything", b""));
    assert!(!contains_bytes(b"ab", b"abc"));
}

#[test]
fn test_str_eq() {
    assert!(str_eq("abc", "abc"));
    assert!(!str_eq("abc", "abd"));
    assert!(!str_eq("abc", "abcd"));
}
