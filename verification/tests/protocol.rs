use base64::Engine;

use licore::liclient::license_round_trip;
use licore::licore::derivation_is_deterministic;
use licore::{LiClient, LiCoreV1, LiError};

const FP: &str = "4c4c4544-0042-3310-8035-b4c04f435831";

fn create_test_client() -> LiClient {
    LiClient::new(LiCoreV1 {
        act_aes_key: *b"TestKeyABC123456",
        act_aes_padding: Some("PKCS7"),
        lic_aes_key: *b"TestKeyABC123456",
        lic_aes_padding: Some("PKCS7"),
    })
}

#[test]
fn test_client_creation() {
    let client = create_test_client();
    assert!(client.gen_actoken(FP).is_ok());
}

#[test]
fn test_actoken_generation() {
    let client = create_test_client();
    let token = client.gen_actoken(FP).unwrap();

    assert!(!token.is_empty());
    assert!(base64::engine::general_purpose::STANDARD.decode(&token).is_ok());
}

#[test]
fn test_license_generation_and_verification() {
    let client = create_test_client();

    let actoken = client.gen_actoken(FP).unwrap();
    let (key, _sid) = client.license_core.gen_actokey(&actoken).unwrap();
    let license = client.gen_license(&actoken, &key, FP).unwrap();

    assert!(client.verify_license(license, FP).unwrap());
}

#[test]
fn test_invalid_license() {
    let client = create_test_client();

    // The empty text is no license: false, not an error.
    assert!(!client.verify_license("".to_string(), FP).unwrap());

    // Text that is not valid base64 cannot be an envelope.
    let r = client.verify_license("invalid-base64".to_string(), FP);
    assert_eq!(r.unwrap_err(), LiError::MalformedEnvelope);

    // Valid base64 around content that is no envelope is malformed too.
    let invalid_license = base64::engine::general_purpose::STANDARD.encode("invalid content");
    let r = client.verify_license(invalid_license, FP);
    assert_eq!(r.unwrap_err(), LiError::MalformedEnvelope);
}

#[test]
fn test_different_keys() {
    let client1 = create_test_client();
    let client2 = LiClient::new(LiCoreV1 {
        act_aes_key: *b"DiffStringKeyABC",
        act_aes_padding: Some("PKCS7"),
        lic_aes_key: *b"DiffStringKeyABC",
        lic_aes_padding: Some("PKCS7"),
    });

    let actoken1 = client1.gen_actoken(FP).unwrap();
    let (key1, _) = client1.license_core.gen_actokey(&actoken1).unwrap();
    let license1 = client1.gen_license(&actoken1, &key1, FP).unwrap();

    // Under other key material the license must not verify: a false result
    // or a decryption error, never a pass.
    match client2.verify_license(license1, FP) {
        Ok(passed) => assert!(!passed),
        Err(e) => assert_eq!(e, LiError::CryptoFailure),
    }
}

#[test]
fn test_concurrent_operations() {
    let client = create_test_client();
    let mut sids: Vec<String> = Vec::new();

    for _ in 0..10 {
        let actoken = client.gen_actoken(FP).unwrap();
        let (key, sid) = client.license_core.gen_actokey(&actoken).unwrap();
        let license = client.gen_license(&actoken, &key, FP).unwrap();
        assert!(client.verify_license(license, FP).unwrap());
        sids.push(sid);
    }

    for i in 0..sids.len() {
        for j in 0..i {
            assert_ne!(sids[i], sids[j]);
        }
    }
}

#[test]
fn test_error_recovery() {
    let client = create_test_client();

    let mut results = vec![];

    for _ in 0..5 {
        let actoken = client.gen_actoken(FP).unwrap();
        let (key, _) = client.license_core.gen_actokey(&actoken).unwrap();
        let license = client.gen_license(&actoken, &key, FP).unwrap();
        results.push(client.verify_license(license, FP).unwrap());

        let _ = client.verify_license("invalid".to_string(), FP);

        let actoken = client.gen_actoken(FP).unwrap();
        let (key, _) = client.license_core.gen_actokey(&actoken).unwrap();
        let license = client.gen_license(&actoken, &key, FP).unwrap();
        results.push(client.verify_license(license, FP).unwrap());
    }

    assert!(results.iter().all(|&r| r));
}

#[test]
fn test_round_trip_law() {
    let client = create_test_client();
    assert_eq!(license_round_trip(&client, FP).unwrap(), true);
    assert_eq!(license_round_trip(&client, "another host id").unwrap(), true);
}

#[test]
fn test_round_trip_law_0x80_padding() {
    let client = LiClient::new(LiCoreV1 {
        act_aes_key: *b"TestKeyABC123456",
        act_aes_padding: Some("0x80"),
        lic_aes_key: *b"DiffStringKeyABC",
        lic_aes_padding: Some("0x80"),
    });
    assert_eq!(license_round_trip(&client, FP).unwrap(), true);
}

#[test]
fn test_round_trip_law_mixed_padding() {
    let client = LiClient::new(LiCoreV1 {
        act_aes_key: *b"TestKeyABC123456",
        act_aes_padding: Some("PKCS7"),
        lic_aes_key: *b"TestKeyABC123456",
        lic_aes_padding: Some("0x80"),
    });
    assert_eq!(license_round_trip(&client, FP).unwrap(), true);
}

#[test]
fn test_derivation_deterministic() {
    let client = create_test_client();
    let actoken = client.gen_actoken(FP).unwrap();

    let (a, b) = derivation_is_deterministic(&client.license_core, &actoken);
    let (key_a, sid_a) = a.unwrap();
    let (key_b, sid_b) = b.unwrap();
    assert_eq!(key_a, key_b);
    assert_eq!(sid_a, sid_b);

    let (key_c, sid_c) = client.license_core.gen_actokey(&actoken).unwrap();
    assert_eq!(key_a, key_c);
    assert_eq!(sid_a, sid_c);
}

#[test]
fn test_activation_key_gate() {
    let client = create_test_client();
    let actoken = client.gen_actoken(FP).unwrap();
    let (key, _sid) = client.license_core.gen_actokey(&actoken).unwrap();

    assert!(client.check_actokey(&actoken, &key).unwrap());

    let wrong = if key == "0000" { "0001".to_string() } else { "0000".to_string() };
    assert!(!client.check_actokey(&actoken, &wrong).unwrap());

    let r = client.gen_license(&actoken, &wrong, FP);
    assert_eq!(r.unwrap_err(), LiError::ActivationKeyMismatch);

    let license = client.gen_license(&actoken, &key, FP).unwrap();
    assert!(client.verify_license(license, FP).unwrap());
}

#[test]
fn test_actokey_shape() {
    let client = create_test_client();
    let actoken = client.gen_actoken(FP).unwrap();
    let (key, sid) = client.license_core.gen_actokey(&actoken).unwrap();

    assert_eq!(key.len(), 4);
    assert!(key.chars().all(|c| c.is_ascii_hexdigit() && !c.is_ascii_lowercase()));
    assert_eq!(sid.len(), 36);
}

#[test]
fn test_session_id_shape() {
    let client = create_test_client();
    let sid = client.license_core.gen_smblos_uuid();
    assert_eq!(sid.len(), 36);
    for (i, b) in sid.bytes().enumerate() {
        if i == 8 || i == 13 || i == 18 || i == 23 {
            assert_eq!(b, b'-');
        } else {
            assert!(b.is_ascii_hexdigit() && !b.is_ascii_uppercase());
        }
    }
}

#[test]
fn test_fingerprint_binding() {
    let client = create_test_client();
    let actoken = client.gen_actoken(FP).unwrap();
    let (key, _) = client.license_core.gen_actokey(&actoken).unwrap();
    let license = client.gen_license(&actoken, &key, FP).unwrap();

    // The license is bound to the fingerprint it was issued for.
    assert!(!client.verify_license(license.clone(), "some-other-machine").unwrap());
    assert!(client.verify_license(license, FP).unwrap());
}
