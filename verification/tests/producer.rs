use base64::engine::general_purpose::URL_SAFE_NO_PAD;
use base64::Engine;
use ed25519_dalek::Verifier;

use grey_signal::canonical::unsigned_bytes;
use grey_signal::envelope::{Envelope, EVENT_SPEC_V1, PROBE_REQUESTED_V1};
use grey_signal::json::JsonValue;
use grey_signal::producer::{
    check_private_key_mode, parse_private_key, private_key_text, public_key, sign_envelope,
    ProducerError, SigningKey,
};

fn unsigned_envelope() -> Envelope {
    Envelope {
        spec: EVENT_SPEC_V1.to_owned(),
        id: "evt_sign_test".to_owned(),
        issuer: "p_test".to_owned(),
        key_id: "k1".to_owned(),
        kind: PROBE_REQUESTED_V1.to_owned(),
        target: "t_test".to_owned(),
        issued_at: "2026-08-30T18:20:00Z".to_owned(),
        expires_at: "2026-08-30T18:30:00Z".to_owned(),
        correlation_id: "cor_sign_test".to_owned(),
        causation_id: None,
        payload: JsonValue::Object(vec![(
            "nonce".to_owned(),
            JsonValue::Text("public-safe-nonce".to_owned()),
        )]),
        signature: String::new(),
    }
}

#[test]
fn signs_canonical_unsigned_envelope() {
    let signing_key = SigningKey::from_bytes(&[11_u8; 32]);
    let signed = sign_envelope(unsigned_envelope(), &signing_key).unwrap();
    let signature_bytes = URL_SAFE_NO_PAD.decode(&signed.signature).unwrap();
    let signature_bytes: [u8; 64] = signature_bytes.try_into().unwrap();
    let signature = ed25519_dalek::Signature::from_bytes(&signature_bytes);
    let message = unsigned_bytes(&signed).unwrap();

    ed25519_dalek::SigningKey::from_bytes(&[11_u8; 32])
        .verifying_key()
        .verify(&message, &signature)
        .unwrap();
    assert_eq!(public_key(&signing_key).len(), 43);
}

#[test]
fn refuses_to_replace_existing_signature() {
    let signing_key = SigningKey::from_bytes(&[11_u8; 32]);
    let mut envelope = unsigned_envelope();
    envelope.signature = "already-present".to_owned();

    assert!(matches!(
        sign_envelope(envelope, &signing_key),
        Err(ProducerError::SignatureAlreadyPresent)
    ));
}

#[test]
fn public_key_is_the_ed25519_verifying_key() {
    let signing_key = SigningKey::from_bytes(&[11_u8; 32]);
    let expected = URL_SAFE_NO_PAD
        .encode(ed25519_dalek::SigningKey::from_bytes(&[11_u8; 32]).verifying_key().as_bytes());
    assert_eq!(public_key(&signing_key), expected);
}

#[test]
fn private_key_text_reloads() {
    let signing_key = SigningKey::from_bytes(&[42_u8; 32]);
    let text = private_key_text(&signing_key);
    assert!(text.ends_with('\n'));
    assert_eq!(text.trim(), URL_SAFE_NO_PAD.encode([42_u8; 32]));
    let reloaded = parse_private_key(&text).unwrap();
    assert_eq!(reloaded.secret, [42_u8; 32]);
    assert_eq!(public_key(&reloaded), public_key(&signing_key));
}

#[test]
fn private_key_parse_errors() {
    assert!(matches!(parse_private_key("not*base64"), Err(ProducerError::InvalidPrivateKeyEncoding)));
    assert!(matches!(
        parse_private_key(&URL_SAFE_NO_PAD.encode([1_u8; 31])),
        Err(ProducerError::InvalidPrivateKeyLength)
    ));
    let padded = format!("  \t{}\r\n\n", URL_SAFE_NO_PAD.encode([3_u8; 32]));
    assert_eq!(parse_private_key(&padded).unwrap().secret, [3_u8; 32]);
}

#[test]
fn private_key_mode_must_exclude_group_and_other() {
    assert!(check_private_key_mode(0o100600).is_ok());
    assert!(check_private_key_mode(0o400).is_ok());
    assert!(matches!(check_private_key_mode(0o640), Err(ProducerError::InsecurePrivateKeyPermissions)));
    assert!(matches!(check_private_key_mode(0o601), Err(ProducerError::InsecurePrivateKeyPermissions)));
}

#[test]
fn signing_is_deterministic_and_leaves_other_members() {
    let signing_key = SigningKey::from_bytes(&[11_u8; 32]);
    let a = sign_envelope(unsigned_envelope(), &signing_key).unwrap();
    let b = sign_envelope(unsigned_envelope(), &signing_key).unwrap();
    assert_eq!(a.signature, b.signature);
    assert_eq!(a.id, "evt_sign_test");
    assert_eq!(unsigned_bytes(&a).unwrap(), unsigned_bytes(&unsigned_envelope()).unwrap());
}

#[test]
fn key_file_and_public_key_lengths() {
    for seed in [[0_u8; 32], [11_u8; 32], [255_u8; 32]] {
        let key = SigningKey::from_bytes(&seed);
        let text = private_key_text(&key);
        assert_eq!(text.len(), 44);
        assert!(text.ends_with('\n'));
        assert_eq!(text.trim_end(), URL_SAFE_NO_PAD.encode(seed));
        assert_eq!(public_key(&key).len(), 43);
    }
}

#[test]
fn signature_text_has_86_characters_and_decodes_to_64_bytes() {
    let signing_key = SigningKey::from_bytes(&[11_u8; 32]);
    let signed = sign_envelope(unsigned_envelope(), &signing_key).unwrap();
    assert_eq!(signed.signature.len(), 86);
    assert_eq!(URL_SAFE_NO_PAD.decode(&signed.signature).unwrap().len(), 64);
}
